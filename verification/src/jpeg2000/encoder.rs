//! The JPEG 2000 encoder: level shift, reversible color transform, 5/3 wavelet
//! transform, EBCOT block coding, packets, and the codestream around them.
use crate::error::JpeglsError;
use crate::jpeg2000::bit_io::J2kBitWriter;
use crate::jpeg2000::bit_plane_coder::BitPlaneCoder;
use crate::jpeg2000::dwt::{bounded, lemma_bounded_forward53_fits, Dwt53};
use crate::jpeg2000::image::{J2kCod, J2kQcd};
use crate::jpeg2000::packet::{grid_fits, grid_fits_check, writable_block, CodeBlockInfo, PacketHeader, PrecinctState};
use crate::jpeg2000::writer::{plt_length, plt_lengths, J2kWriter};
use crate::jpeg_marker_code::JpegMarkerCode;
use crate::jpeg_stream_writer::marker_bytes;
use crate::FrameInfo;
use crate::bits::{lemma_i32_halves, lemma_one_shl_i32, lemma_one_shl_usize, lemma_pow2_le, lemma_pow2_small, lemma_u16_top5};
use vstd::prelude::*;

verus! {

/// Encodes images as JPEG 2000 codestreams (one tile, one quality layer, LRCP order).
pub struct J2kEncoder {
    /// Decomposition levels asked for (the codestream uses at most 5, and no more
    /// than the image size allows).
    pub decomposition_levels: u8,
    /// Whether the irreversible 9/7 path is asked for.
    pub use_irreversible: bool,
    /// Code-block size exponent, less 2 (4: 64x64 blocks).
    pub codeblock_exp: u8,
    /// Quality, 1 to 100.
    pub quality: u8,
    /// Whether HT block coding is announced.
    pub use_htj2k: bool,
    /// Whether a TLM segment is written.
    pub include_tlm: bool,
    /// Whether a PLT segment is written.
    pub include_plt: bool,
    /// Whether samples are signed.
    pub is_signed: bool,
}

/// One coded packet.
pub struct Packet {
    /// Its resolution level.
    pub resolution: u8,
    /// Its component.
    pub component: u8,
    /// Its quality layer.
    pub layer: u8,
    /// The packet header.
    pub header_data: Vec<u8>,
    /// The packet body.
    pub body_data: Vec<u8>,
}

/// `n` halved, rounding up, `k` times.
pub open spec fn ceil_halved(n: int, k: nat) -> int
    decreases k,
{
    if k == 0 {
        n
    } else {
        ceil_halved((n + 1) / 2, (k - 1) as nat)
    }
}

/// The size of the low-pass band at resolution `res` of `num_levels` levels (at least 1).
pub open spec fn ll_size(width: int, height: int, num_levels: int, res: int) -> (int, int) {
    let k = (num_levels - res) as nat;
    let w = ceil_halved(width, k);
    let h = ceil_halved(height, k);
    (if w > 1 { w } else { 1 }, if h > 1 { h } else { 1 })
}

/// Where subband `sb_idx` of resolution `res` sits: width, height, left column, top row.
/// Resolution 0 holds the low-pass band; above, HL, LH and HH, outside the band below.
pub open spec fn subband_rect(width: int, height: int, num_levels: int, res: int, sb_idx: int) -> (int, int, int, int) {
    let (w, h) = ll_size(width, height, num_levels, res);
    if res == 0 {
        (w, h, 0, 0)
    } else {
        let (pw, ph) = ll_size(width, height, num_levels, res - 1);
        if sb_idx == 0 {
            (w - pw, ph, pw, 0)
        } else if sb_idx == 1 {
            (pw, h - ph, 0, ph)
        } else if sb_idx == 2 {
            (w - pw, h - ph, pw, ph)
        } else {
            (0, 0, 0, 0)
        }
    }
}

/// The coefficient at `(x, y)` of a `width`-wide array, 0 past its end.
pub open spec fn coeff_at(coeffs: Seq<i32>, width: int, x: int, y: int) -> i32 {
    if y * width + x < coeffs.len() { coeffs[y * width + x] } else { 0 }
}

proof fn lemma_ceil_halved_bounds(n: int, k: nat)
    requires
        n >= 0,
    ensures
        0 <= ceil_halved(n, k) <= n,
        n >= 1 ==> ceil_halved(n, k) >= 1,
    decreases k,
{
    if k > 0 {
        lemma_ceil_halved_bounds((n + 1) / 2, (k - 1) as nat);
    }
}

proof fn lemma_ceil_halved_step(n: int, k: nat)
    requires
        n >= 0,
    ensures
        ceil_halved(n, k + 1) == (ceil_halved(n, k) + 1) / 2,
    decreases k,
{
    reveal_with_fuel(ceil_halved, 2);
    if k > 0 {
        lemma_ceil_halved_step((n + 1) / 2, (k - 1) as nat);
        assert(ceil_halved(n, k + 1) == ceil_halved((n + 1) / 2, k));
        assert(ceil_halved(n, k) == ceil_halved((n + 1) / 2, (k - 1) as nat));
    }
}

/// Each resolution's low-pass band lies within the next one's.
proof fn lemma_ll_size_grows(width: int, height: int, num_levels: int, res: int)
    requires
        width >= 0,
        height >= 0,
        1 <= res <= num_levels,
    ensures
        ll_size(width, height, num_levels, res - 1).0 <= ll_size(width, height, num_levels, res).0,
        ll_size(width, height, num_levels, res - 1).1 <= ll_size(width, height, num_levels, res).1,
        ll_size(width, height, num_levels, res).0 <= if width > 1 { width } else { 1 },
        ll_size(width, height, num_levels, res).1 <= if height > 1 { height } else { 1 },
{
    let k = (num_levels - res) as nat;
    lemma_ceil_halved_step(width, k);
    lemma_ceil_halved_step(height, k);
    lemma_ceil_halved_bounds(width, k);
    lemma_ceil_halved_bounds(height, k);
    lemma_ceil_halved_bounds(width, (k + 1) as nat);
    lemma_ceil_halved_bounds(height, (k + 1) as nat);
}

/// The main header the encoder writes: SOC, CAP when HT coding is asked for, SIZ
/// (one tile covering the image, no subsampling), COD and QCD.
pub open spec fn main_header_bytes(
    use_htj2k: bool,
    width: u32,
    height: u32,
    comps: u16,
    ssiz: u8,
    cod: J2kCod,
    qcd: J2kQcd,
) -> Seq<u8> {
    marker_bytes(JpegMarkerCode::StartOfCodestream) + (if use_htj2k { crate::jpeg2000::writer::cap_bytes(true, comps) } else { seq![] })
        + crate::jpeg2000::writer::siz_bytes(width, height, width, height, comps, ssiz, 1, 1)
        + crate::jpeg2000::writer::cod_bytes(cod) + crate::jpeg2000::writer::qcd_bytes(qcd)
}

/// `floor(log2(n))`, and 0 for `n < 2`.
pub open spec fn log2_floor(n: nat) -> nat
    decreases n,
{
    if n < 2 {
        0
    } else {
        1 + log2_floor(n / 2)
    }
}

/// The decomposition levels the encoder uses for a `width` by `height` image when
/// `requested` are asked for: at most `floor(log2)` of the smaller side, and at most 5.
pub open spec fn coded_levels(requested: u8, width: int, height: int) -> u8 {
    let m = if width < height { width } else { height };
    let lg = log2_floor(m as nat);
    let a = if lg < requested { lg as int } else { requested as int };
    (if a > 5 { 5 } else { a }) as u8
}

/// The step sizes the encoder signals for `levels` levels: exponent `depth` for the LL
/// band, `depth + 1` for HL and LH, `depth + 2` for HH, mantissa 0.
pub open spec fn encoder_steps(depth: u8, levels: u8) -> Seq<u16> {
    Seq::new(
        (1 + 3 * levels) as nat,
        |i: int|
            {
                let epsilon: u8 = if i == 0 {
                    depth
                } else if (i - 1) % 3 < 2 {
                    (depth + 1) as u8
                } else {
                    (depth + 2) as u8
                };
                (epsilon as u16) << 11u16
            },
    )
}

/// The COD segment the encoder writes for `comps` components and `levels` levels (see
/// `is_encoder_cod`).
pub open spec fn encoder_cod_bytes(enc: J2kEncoder, comps: int, levels: u8) -> Seq<u8> {
    marker_bytes(JpegMarkerCode::CodingStyleDefault) + crate::jpeg_stream_writer::be16(12) + seq![0u8, 0u8]
        + crate::jpeg_stream_writer::be16(1) + seq![
        if comps >= 3 { 1u8 } else { 0u8 },
        levels,
        enc.codeblock_exp,
        enc.codeblock_exp,
        if enc.use_htj2k { 0x40u8 } else { 0u8 },
        if enc.use_irreversible { 0u8 } else { 1u8 },
    ]
}

/// The main header the encoder writes: SOC, CAP when HT coding is asked for, SIZ, the
/// encoder's COD for `levels` levels, and QCD with style `quant_style` and `steps`.
pub open spec fn encoder_header(
    enc: J2kEncoder,
    width: u32,
    height: u32,
    comps: u16,
    depth: u8,
    levels: u8,
    quant_style: u8,
    steps: Seq<u16>,
) -> Seq<u8> {
    marker_bytes(JpegMarkerCode::StartOfCodestream) + (if enc.use_htj2k { crate::jpeg2000::writer::cap_bytes(true, comps) } else { seq![] })
        + crate::jpeg2000::writer::siz_bytes(width, height, width, height, comps, ssiz_of(depth, enc.is_signed), 1, 1)
        + encoder_cod_bytes(enc, comps as int, levels) + crate::jpeg2000::writer::qcd_seq_bytes(quant_style, steps)
}

/// The Ssiz byte of SIZ: depth less one, bit 7 for signed samples.
pub open spec fn ssiz_of(depth: u8, is_signed: bool) -> u8 {
    ((depth - 1) as u8 | if is_signed { 0x80u8 } else { 0u8 }) as u8
}

/// `cod` is the COD segment content of the encoder: one layer, LRCP, the color
/// transform for three components or more, its block size, and the block style and
/// wavelet asked for.
pub open spec fn is_encoder_cod(cod: J2kCod, enc: J2kEncoder, comps: int, levels: u8) -> bool {
    &&& cod.coding_style == 0
    &&& cod.progression_order == 0
    &&& cod.number_of_layers == 1
    &&& cod.mct == if comps >= 3 { 1u8 } else { 0u8 }
    &&& cod.decomposition_levels == levels
    &&& cod.transformation == if enc.use_irreversible { 0u8 } else { 1u8 }
    &&& cod.codeblock_width_exp == enc.codeblock_exp
    &&& cod.codeblock_height_exp == enc.codeblock_exp
    &&& cod.code_block_style == if enc.use_htj2k { 0x40u8 } else { 0u8 }
    &&& cod.precinct_sizes@.len() == 0
}

/// The reversible color transform of one pixel (G.2): `Y = floor((R + 2G + B) / 4)`,
/// `U = B - G`, `V = R - G`.
pub open spec fn rct_forward(r: int, g: int, b: int) -> (int, int, int) {
    ((r + 2 * g + b) / 4, b - g, r - g)
}

/// The inverse transform: `G = Y - floor((U + V) / 4)`, `R = V + G`, `B = U + G`.
pub open spec fn rct_inverse(y: int, u: int, v: int) -> (int, int, int) {
    let g = y - (u + v) / 4;
    (v + g, g, u + g)
}

/// The inverse transform gives back every pixel the forward one took.
pub proof fn lemma_rct_roundtrip(r: int, g: int, b: int)
    ensures
        ({
            let (y, u, v) = rct_forward(r, g, b);
            rct_inverse(y, u, v) == (r, g, b)
        }),
{
    let y = (r + 2 * g + b) / 4;
    let u = b - g;
    let v = r - g;
    let q = (u + v) / 4;
    let m = (u + v) % 4;
    vstd::arithmetic::div_mod::lemma_fundamental_div_mod(u + v, 4);
    assert(r + 2 * g + b == (g + q) * 4 + m);
    vstd::arithmetic::div_mod::lemma_fundamental_div_mod_converse(r + 2 * g + b, 4, g + q, m);
}

/// The coefficient at `(x, y)` of the block at `(x0, y0)` of a `sb_w`-wide subband.
pub open spec fn block_coeff(sb: Seq<i32>, sb_w: int, x0: int, y0: int, x: int, y: int) -> i32 {
    sb[(y0 + y) * sb_w + x0 + x]
}

/// The first `x` coefficients of row `y` of the block lie within `±2^30`.
pub open spec fn row_in_range(sb: Seq<i32>, sb_w: int, x0: int, y0: int, y: int, x: int) -> bool {
    forall|xx: int| 0 <= xx < x ==> -0x4000_0000 < #[trigger] block_coeff(sb, sb_w, x0, y0, xx, y) < 0x4000_0000
}

/// The first `x` coefficients of row `y` of the block are 0.
pub open spec fn row_all_zero(sb: Seq<i32>, sb_w: int, x0: int, y0: int, y: int, x: int) -> bool {
    forall|xx: int| 0 <= xx < x ==> #[trigger] block_coeff(sb, sb_w, x0, y0, xx, y) == 0
}

/// Every coefficient of the `bw` by `bh` block lies within `±2^30`.
pub open spec fn block_in_range(sb: Seq<i32>, sb_w: int, x0: int, y0: int, bw: int, bh: int) -> bool {
    forall|yy: int| 0 <= yy < bh ==> #[trigger] row_in_range(sb, sb_w, x0, y0, yy, bw)
}

/// Every coefficient of the `bw` by `bh` block is 0.
pub open spec fn block_all_zero(sb: Seq<i32>, sb_w: int, x0: int, y0: int, bw: int, bh: int) -> bool {
    forall|yy: int| 0 <= yy < bh ==> #[trigger] row_all_zero(sb, sb_w, x0, y0, yy, bw)
}

/// Sample `idx` of interleaved pixel bytes: a byte, or (deeper than 8 bits) the
/// little-endian pair at twice `idx`.
pub open spec fn pixel_sample(pixels: Seq<u8>, idx: int, depth: u8) -> int {
    if depth > 8 { pixels[2 * idx] + 256 * pixels[2 * idx + 1] } else { pixels[idx] as int }
}

/// The two bytes of marker `m` stand at position `p` of `s`.
pub open spec fn marker_at(s: Seq<u8>, p: int, m: JpegMarkerCode) -> bool {
    &&& 0 <= p
    &&& p + 2 <= s.len()
    &&& s.subrange(p, p + 2) == marker_bytes(m)
}

/// Marker `m` stands somewhere in `s`.
pub open spec fn has_marker(s: Seq<u8>, m: JpegMarkerCode) -> bool {
    exists|p: int| #[trigger] marker_at(s, p, m)
}

/// Sample `idx` as it is coded: for unsigned samples, less the level shift; for
/// signed ones, the byte (or little-endian pair) read as two's complement, unshifted.
pub open spec fn coded_sample(pixels: Seq<u8>, idx: int, depth: u8, level_shift: i32, is_signed: bool) -> int {
    let v = pixel_sample(pixels, idx, depth);
    if !is_signed {
        v - level_shift
    } else if depth > 8 {
        if v >= 0x8000 { v - 0x1_0000 } else { v }
    } else {
        if v >= 0x80 { v - 0x100 } else { v }
    }
}

/// The least value a coded sample can take.
pub open spec fn sample_floor(level_shift: i32, is_signed: bool) -> int {
    if is_signed { 0x8000 } else { level_shift as int }
}

/// The sum of packet lengths.
pub open spec fn length_sum(lengths: Seq<u32>) -> int
    decreases lengths.len(),
{
    if lengths.len() == 0 {
        0
    } else {
        length_sum(lengths.drop_last()) + lengths.last()
    }
}

/// The PLT bytes of a prefix of the lengths are no more than those of all of them.
proof fn lemma_plt_lengths_prefix(lengths: Seq<u32>, j: int)
    requires
        0 <= j <= lengths.len(),
    ensures
        plt_lengths(lengths.take(j)).len() <= plt_lengths(lengths).len(),
    decreases lengths.len(),
{
    if j < lengths.len() {
        assert(lengths.drop_last().take(j) =~= lengths.take(j));
        lemma_plt_lengths_prefix(lengths.drop_last(), j);
    } else {
        assert(lengths.take(j) =~= lengths);
    }
}

/// A block grows by one full row.
proof fn lemma_block_grow(sb: Seq<i32>, sb_w: int, x0: int, y0: int, bw: int, y: int)
    requires
        y >= 0,
    ensures
        block_in_range(sb, sb_w, x0, y0, bw, y) && row_in_range(sb, sb_w, x0, y0, y, bw) ==> block_in_range(
            sb, sb_w, x0, y0, bw, y + 1),
        block_all_zero(sb, sb_w, x0, y0, bw, y + 1) <==> block_all_zero(sb, sb_w, x0, y0, bw, y) && row_all_zero(
            sb, sb_w, x0, y0, y, bw),
{
    if block_all_zero(sb, sb_w, x0, y0, bw, y + 1) {
        assert(row_all_zero(sb, sb_w, x0, y0, y, bw));
    }
}

impl J2kEncoder {
    /// An encoder with the defaults: reversible 5/3, 5 levels, quality 100, 64x64
    /// code-blocks, Part 1 block coding, TLM and PLT written, unsigned samples.
    pub fn new() -> (r: Self)
        ensures
            r == (J2kEncoder {
                decomposition_levels: 5,
                use_irreversible: false,
                codeblock_exp: 4,
                quality: 100,
                use_htj2k: false,
                include_tlm: true,
                include_plt: true,
                is_signed: false,
            }),
    {
        Self {
            decomposition_levels: 5,
            use_irreversible: false,
            codeblock_exp: 4,
            quality: 100,
            use_htj2k: false,
            include_tlm: true,
            include_plt: true,
            is_signed: false,
        }
    }

    /// Sets whether samples are signed (no level shift is meant for them).
    pub fn set_signed(&mut self, is_signed: bool)
        ensures
            *final(self) == (J2kEncoder { is_signed, ..*old(self) }),
    {
        self.is_signed = is_signed;
    }

    /// Sets the quality, clamped to 1..=100.
    pub fn set_quality(&mut self, quality: u8)
        ensures
            *final(self) == (J2kEncoder {
                quality: if quality > 100 { 100 } else if quality < 1 { 1 } else { quality },
                ..*old(self)
            }),
    {
        let q = if quality > 100 { 100 } else { quality };
        self.quality = if q < 1 { 1 } else { q };
    }

    /// Sets the decomposition levels, clamped to at most 32.
    pub fn set_decomposition_levels(&mut self, levels: u8)
        ensures
            *final(self) == (J2kEncoder { decomposition_levels: if levels > 32 { 32 } else { levels }, ..*old(self) }),
    {
        self.decomposition_levels = if levels > 32 { 32 } else { levels };
    }

    /// Sets whether the irreversible 9/7 path is asked for.
    pub fn set_irreversible(&mut self, irreversible: bool)
        ensures
            *final(self) == (J2kEncoder { use_irreversible: irreversible, ..*old(self) }),
    {
        self.use_irreversible = irreversible;
    }

    /// Sets whether HT block coding is asked for.
    pub fn set_htj2k(&mut self, use_htj2k: bool)
        ensures
            *final(self) == (J2kEncoder { use_htj2k, ..*old(self) }),
    {
        self.use_htj2k = use_htj2k;
    }

    /// Sets whether a TLM segment is written.
    pub fn set_include_tlm(&mut self, enabled: bool)
        ensures
            *final(self) == (J2kEncoder { include_tlm: enabled, ..*old(self) }),
    {
        self.include_tlm = enabled;
    }

    /// Sets whether a PLT segment is written.
    pub fn set_include_plt(&mut self, enabled: bool)
        ensures
            *final(self) == (J2kEncoder { include_plt: enabled, ..*old(self) }),
    {
        self.include_plt = enabled;
    }

    /// The size of the low-pass band at resolution `res` of `num_levels` levels: the
    /// image size halved, rounding up, once per level above `res`, and at least 1.
    pub fn get_ll_size(&self, width: usize, height: usize, num_levels: usize, res: usize) -> (r: (usize, usize))
        requires
            res <= num_levels,
        ensures
            (r.0 as int, r.1 as int) == ll_size(width as int, height as int, num_levels as int, res as int),
    {
        let levels_remaining = num_levels - res;
        let mut w = width;
        let mut h = height;
        let mut i: usize = 0;
        while i < levels_remaining
            invariant
                i <= levels_remaining,
                w as int == ceil_halved(width as int, i as nat),
                h as int == ceil_halved(height as int, i as nat),
            decreases levels_remaining - i,
        {
            proof {
                lemma_ceil_halved_step(width as int, i as nat);
                lemma_ceil_halved_step(height as int, i as nat);
            }
            w = w / 2 + w % 2;
            h = h / 2 + h % 2;
            i = i + 1;
        }
        (if w > 1 { w } else { 1 }, if h > 1 { h } else { 1 })
    }

    /// The coefficients of subband `sb_idx` of resolution `res`, row by row, with its
    /// width and height (0 past the end of `coeffs`).
    pub fn extract_subband_coeffs(
        &self,
        coeffs: &[i32],
        width: usize,
        height: usize,
        num_levels: usize,
        res: usize,
        sb_idx: usize,
    ) -> (r: (Vec<i32>, usize, usize))
        requires
            res <= num_levels,
            (width as int + 1) * (height as int + 1) <= usize::MAX,
        ensures
            ({
                let (w, h, x0, y0) = subband_rect(width as int, height as int, num_levels as int, res as int, sb_idx as int);
                &&& r.1 == w
                &&& r.2 == h
                &&& r.0@.len() == w * h
                &&& forall|y: int, x: int|
                    0 <= y < h && 0 <= x < w ==> #[trigger] r.0@[y * w + x] == coeff_at(coeffs@, width as int, x0 + x, y0 + y)
            }),
    {
        let (ll_w, ll_h) = self.get_ll_size(width, height, num_levels, res);
        let (sb_w, sb_h, start_x, start_y): (usize, usize, usize, usize) = if res == 0 {
            (ll_w, ll_h, 0, 0)
        } else {
            let (pw, ph) = self.get_ll_size(width, height, num_levels, res - 1);
            proof {
                lemma_ll_size_grows(width as int, height as int, num_levels as int, res as int);
            }
            if sb_idx == 0 {
                (ll_w - pw, ph, pw, 0)
            } else if sb_idx == 1 {
                (pw, ll_h - ph, 0, ph)
            } else if sb_idx == 2 {
                (ll_w - pw, ll_h - ph, pw, ph)
            } else {
                (0, 0, 0, 0)
            }
        };
        proof {
            if res > 0 {
                lemma_ll_size_grows(width as int, height as int, num_levels as int, res as int);
            } else {
                lemma_ceil_halved_bounds(width as int, (num_levels - res) as nat);
                lemma_ceil_halved_bounds(height as int, (num_levels - res) as nat);
            }
        }
        assert(start_x + sb_w <= width + 1 && start_y + sb_h <= height + 1);
        assert(subband_rect(width as int, height as int, num_levels as int, res as int, sb_idx as int) == (
            sb_w as int,
            sb_h as int,
            start_x as int,
            start_y as int,
        ));
        let mut out: Vec<i32> = Vec::new();
        let mut y: usize = 0;
        while y < sb_h
            invariant
                y <= sb_h,
                start_x + sb_w <= width + 1,
                start_y + sb_h <= height + 1,
                (width as int + 1) * (height as int + 1) <= usize::MAX,
                out@.len() == y * sb_w,
                forall|yy: int, xx: int|
                    0 <= yy < y && 0 <= xx < sb_w ==> #[trigger] out@[yy * sb_w + xx] == coeff_at(
                        coeffs@,
                        width as int,
                        start_x + xx,
                        start_y + yy,
                    ),
            decreases sb_h - y,
        {
            let mut x: usize = 0;
            while x < sb_w
                invariant
                    x <= sb_w,
                    y < sb_h,
                    start_x + sb_w <= width + 1,
                    start_y + sb_h <= height + 1,
                    (width as int + 1) * (height as int + 1) <= usize::MAX,
                    out@.len() == y * sb_w + x,
                    forall|yy: int, xx: int|
                        0 <= yy < y && 0 <= xx < sb_w ==> #[trigger] out@[yy * sb_w + xx] == coeff_at(
                            coeffs@,
                            width as int,
                            start_x + xx,
                            start_y + yy,
                        ),
                    forall|xx: int| 0 <= xx < x ==> #[trigger] out@[y * sb_w + xx] == coeff_at(
                        coeffs@,
                        width as int,
                        start_x + xx,
                        start_y + y,
                    ),
                decreases sb_w - x,
            {
                let src_x = start_x + x;
                let src_y = start_y + y;
                assert(src_y * width + src_x <= (height + 1) * (width + 1)) by (nonlinear_arith)
                    requires
                        src_y <= height,
                        src_x <= width,
                ;
                let idx = src_y * width + src_x;
                let v = if idx < coeffs.len() { coeffs[idx] } else { 0 };
                out.push(v);
                proof {
                    assert forall|yy: int, xx: int| 0 <= yy < y && 0 <= xx < sb_w implies #[trigger] out@[yy * sb_w + xx]
                        == coeff_at(coeffs@, width as int, start_x + xx, start_y + yy) by {
                        assert(yy * sb_w + xx < y * sb_w) by (nonlinear_arith)
                            requires
                                0 <= yy < y,
                                0 <= xx < sb_w,
                        ;
                    }
                    assert(out@[y * sb_w + x] == v);
                }
                x = x + 1;
            }
            assert((y + 1) * sb_w == y * sb_w + sb_w) by (nonlinear_arith);
            proof {
                assert forall|yy: int, xx: int| 0 <= yy < y + 1 && 0 <= xx < sb_w implies #[trigger] out@[yy * sb_w + xx]
                    == coeff_at(coeffs@, width as int, start_x + xx, start_y + yy) by {
                    if yy == y {
                    }
                }
            }
            y = y + 1;
        }
        assert(sb_h * sb_w == sb_w * sb_h) by (nonlinear_arith);
        (out, sb_w, sb_h)
    }

    /// Whether every sample of `v` lies within `±2^28`.
    fn all_within(v: &Vec<i32>) -> (r: bool)
        ensures
            r == bounded(v@, 0x1000_0000),
    {
        let mut i: usize = 0;
        while i < v.len()
            invariant
                i <= v@.len(),
                bounded(v@.take(i as int), 0x1000_0000),
            decreases v@.len() - i,
        {
            if v[i] < -0x1000_0000 || v[i] > 0x1000_0000 {
                assert(!bounded(v@, 0x1000_0000)) by {
                    assert(v@[i as int] == v@[i as int]);
                }
                return false;
            }
            assert(v@.take(i + 1) =~= v@.take(i as int).push(v@[i as int]));
            i = i + 1;
        }
        assert(v@.take(v@.len() as int) =~= v@);
        true
    }

    /// The forward 5/3 transform of a `width` by `height` array, level after level (as
    /// many as the encoder's setting, stopping once the low band is narrower or lower
    /// than 2): each row of the low band is lifted (low half left, high half right),
    /// then each column (low half on top). A sample leaving `±2^28` before a lifting is
    /// `InvalidData`.
    pub fn apply_forward_dwt_2d(&self, data: &mut [i32], width: usize, height: usize) -> (r: Result<Vec<i32>, JpeglsError>)
        requires
            width * height <= old(data)@.len(),
        ensures
            final(data)@ == old(data)@,
            r matches Ok(v) ==> v@.len() == old(data)@.len(),
            (self.decomposition_levels == 0 || width < 2 || height < 2) ==> r == Ok::<Vec<i32>, JpeglsError>(
                r->Ok_0,
            ) && r->Ok_0@ == old(data)@,
            r matches Err(e) ==> e == JpeglsError::InvalidData,
    {
        let mut result: Vec<i32> = Vec::new();
        let mut i: usize = 0;
        while i < data.len()
            invariant
                i <= data@.len(),
                result@ == data@.take(i as int),
            decreases data@.len() - i,
        {
            result.push(data[i]);
            i = i + 1;
        }
        assert(data@.take(data@.len() as int) =~= data@);
        let total = data.len();
        let mut current_w = width;
        let mut current_h = height;
        let mut level: u8 = 0;
        while level < self.decomposition_levels
            invariant
                result@.len() == data@.len(),
                    total == data@.len(),
                width * height <= data@.len(),
                current_w <= width,
                current_h <= height,
                (self.decomposition_levels == 0 || width < 2 || height < 2) ==> result@ == data@,
            decreases self.decomposition_levels - level,
        {
            if current_w < 2 || current_h < 2 {
                break;
            }
            let mut y: usize = 0;
            while y < current_h
                invariant
                    result@.len() == data@.len(),
                    total == data@.len(),
                    level < self.decomposition_levels,
                    width * height <= data@.len(),
                    2 <= current_w <= width,
                    2 <= current_h <= height,
                    y <= current_h,
                decreases current_h - y,
            {
                assert(y * width + current_w <= width * height) by (nonlinear_arith)
                    requires
                        y < current_h <= height,
                        current_w <= width,
                ;
                let row_start = y * width;
                let mut row: Vec<i32> = Vec::new();
                let mut k: usize = 0;
                while k < current_w
                    invariant
                        k <= current_w,
                        row@.len() == k,
                        total == result@.len(),
                        row_start + current_w <= result@.len(),
                    decreases current_w - k,
                {
                    row.push(result[row_start + k]);
                    k = k + 1;
                }
                if !Self::all_within(&row) {
                    return Err(JpeglsError::InvalidData);
                }
                proof {
                    lemma_bounded_forward53_fits(row@);
                }
                let l_len = current_w / 2 + current_w % 2;
                let h_len = current_w / 2;
                let mut out_l: Vec<i32> = Vec::new();
                let mut out_h: Vec<i32> = Vec::new();
                let mut k: usize = 0;
                while k < l_len
                    invariant
                        k <= l_len,
                        out_l@.len() == k,
                    decreases l_len - k,
                {
                    out_l.push(0);
                    k = k + 1;
                }
                let mut k: usize = 0;
                while k < h_len
                    invariant
                        k <= h_len,
                        out_h@.len() == k,
                    decreases h_len - k,
                {
                    out_h.push(0);
                    k = k + 1;
                }
                Dwt53::forward(row.as_slice(), out_l.as_mut_slice(), out_h.as_mut_slice());
                let mut k: usize = 0;
                while k < l_len
                    invariant
                        k <= l_len,
                        out_l@.len() == l_len,
                        l_len + h_len == current_w,
                        row_start + current_w <= result@.len(),
                        result@.len() == data@.len(),
                    total == data@.len(),
                    level < self.decomposition_levels,
                    decreases l_len - k,
                {
                    result.set(row_start + k, out_l[k]);
                    k = k + 1;
                }
                let mut k: usize = 0;
                while k < h_len
                    invariant
                        k <= h_len,
                        out_h@.len() == h_len,
                        l_len + h_len == current_w,
                        row_start + current_w <= result@.len(),
                        result@.len() == data@.len(),
                    total == data@.len(),
                    level < self.decomposition_levels,
                    decreases h_len - k,
                {
                    result.set(row_start + l_len + k, out_h[k]);
                    k = k + 1;
                }
                y = y + 1;
            }
            let mut x: usize = 0;
            while x < current_w
                invariant
                    result@.len() == data@.len(),
                    total == data@.len(),
                    level < self.decomposition_levels,
                    width * height <= data@.len(),
                    2 <= current_w <= width,
                    2 <= current_h <= height,
                    x <= current_w,
                decreases current_w - x,
            {
                let mut col: Vec<i32> = Vec::new();
                let mut k: usize = 0;
                while k < current_h
                    invariant
                        k <= current_h,
                        col@.len() == k,
                        total == result@.len(),
                        x < current_w <= width,
                        current_h <= height,
                        width * height <= result@.len(),
                    decreases current_h - k,
                {
                    assert(k * width + x < width * height) by (nonlinear_arith)
                        requires
                            k < current_h <= height,
                            x < current_w <= width,
                    ;
                    col.push(result[k * width + x]);
                    k = k + 1;
                }
                if !Self::all_within(&col) {
                    return Err(JpeglsError::InvalidData);
                }
                proof {
                    lemma_bounded_forward53_fits(col@);
                }
                let l_len = current_h / 2 + current_h % 2;
                let h_len = current_h / 2;
                let mut out_l: Vec<i32> = Vec::new();
                let mut out_h: Vec<i32> = Vec::new();
                let mut k: usize = 0;
                while k < l_len
                    invariant
                        k <= l_len,
                        out_l@.len() == k,
                    decreases l_len - k,
                {
                    out_l.push(0);
                    k = k + 1;
                }
                let mut k: usize = 0;
                while k < h_len
                    invariant
                        k <= h_len,
                        out_h@.len() == k,
                    decreases h_len - k,
                {
                    out_h.push(0);
                    k = k + 1;
                }
                Dwt53::forward(col.as_slice(), out_l.as_mut_slice(), out_h.as_mut_slice());
                let mut k: usize = 0;
                while k < l_len
                    invariant
                        k <= l_len,
                        out_l@.len() == l_len,
                        l_len + h_len == current_h,
                        x < current_w <= width,
                        current_h <= height,
                        width * height <= result@.len(),
                        result@.len() == data@.len(),
                    total == data@.len(),
                    level < self.decomposition_levels,
                    decreases l_len - k,
                {
                    assert(k * width + x < width * height) by (nonlinear_arith)
                        requires
                            k < current_h <= height,
                            x < current_w <= width,
                    ;
                    result.set(k * width + x, out_l[k]);
                    k = k + 1;
                }
                let mut k: usize = 0;
                while k < h_len
                    invariant
                        k <= h_len,
                        out_h@.len() == h_len,
                        l_len + h_len == current_h,
                        x < current_w <= width,
                        current_h <= height,
                        width * height <= result@.len(),
                        result@.len() == data@.len(),
                    total == data@.len(),
                    level < self.decomposition_levels,
                    decreases h_len - k,
                {
                    assert((l_len + k) * width + x < width * height) by (nonlinear_arith)
                        requires
                            l_len + k < current_h <= height,
                            x < current_w <= width,
                    ;
                    result.set((l_len + k) * width + x, out_h[k]);
                    k = k + 1;
                }
                x = x + 1;
            }
            current_w = current_w / 2 + current_w % 2;
            current_h = current_h / 2 + current_h % 2;
            level = level + 1;
        }
        Ok(result)
    }

    /// Codes the `bw` by `bh` block at `(x0, y0)` of a `sb_w`-wide subband with EBCOT:
    /// `None` when every coefficient is 0, else the passes, the zero bit-planes
    /// (`guard_bits + epsilon - 2` less the most significant bit-plane, when it is not
    /// below) and the MQ-coded bytes. A coefficient outside `±2^30` is `InvalidData`; a
    /// nonzero block with HT coding asked for is `InvalidOperation`.
    fn encode_block(
        &self,
        sb_coeffs: &Vec<i32>,
        sb_w: usize,
        x0: usize,
        y0: usize,
        bw: usize,
        bh: usize,
        orientation: u8,
        mb_base: u8,
    ) -> (r: Result<Option<(u8, u8, Vec<u8>)>, JpeglsError>)
        requires
            1 <= bw <= 32768,
            1 <= bh <= 32768,
            x0 + bw <= sb_w,
            (y0 + bh) * sb_w <= sb_coeffs@.len(),
        ensures
            r matches Ok(Some((passes, zero_bp, data))) ==> 1 <= passes <= 88 && data@.len() <= u32::MAX,
            r matches Err(e) ==> e == JpeglsError::InvalidData || e == JpeglsError::InvalidOperation,
            !block_in_range(sb_coeffs@, sb_w as int, x0 as int, y0 as int, bw as int, bh as int) ==> r
                == Err::<Option<(u8, u8, Vec<u8>)>, JpeglsError>(JpeglsError::InvalidData),
            block_in_range(sb_coeffs@, sb_w as int, x0 as int, y0 as int, bw as int, bh as int) ==> {
                let zero = block_all_zero(sb_coeffs@, sb_w as int, x0 as int, y0 as int, bw as int, bh as int);
                &&& (r matches Ok(None)) <==> zero
                &&& !zero && self.use_htj2k ==> r == Err::<Option<(u8, u8, Vec<u8>)>, JpeglsError>(
                    JpeglsError::InvalidOperation,
                )
            },
    {
        let total = sb_coeffs.len();
        let mut block: Vec<i32> = Vec::new();
        let mut has_nonzero = false;
        let mut y: usize = 0;
        while y < bh
            invariant
                total == sb_coeffs@.len(),
                y <= bh,
                1 <= bw <= 32768,
                x0 + bw <= sb_w,
                (y0 + bh) * sb_w <= sb_coeffs@.len(),
                block@.len() == y * bw,
                forall|i: int| 0 <= i < block@.len() ==> -0x4000_0000 < #[trigger] block@[i] < 0x4000_0000,
                has_nonzero <==> exists|i: int| 0 <= i < block@.len() && #[trigger] block@[i] != 0,
                block_in_range(sb_coeffs@, sb_w as int, x0 as int, y0 as int, bw as int, y as int),
                has_nonzero <==> !block_all_zero(sb_coeffs@, sb_w as int, x0 as int, y0 as int, bw as int, y as int),
            decreases bh - y,
        {
            let mut x: usize = 0;
            while x < bw
                invariant
                    total == sb_coeffs@.len(),
                    x <= bw,
                    y < bh,
                    1 <= bw <= 32768,
                    x0 + bw <= sb_w,
                    (y0 + bh) * sb_w <= sb_coeffs@.len(),
                    block@.len() == y * bw + x,
                    forall|i: int| 0 <= i < block@.len() ==> -0x4000_0000 < #[trigger] block@[i] < 0x4000_0000,
                    has_nonzero <==> exists|i: int| 0 <= i < block@.len() && #[trigger] block@[i] != 0,
                    block_in_range(sb_coeffs@, sb_w as int, x0 as int, y0 as int, bw as int, y as int),
                    row_in_range(sb_coeffs@, sb_w as int, x0 as int, y0 as int, y as int, x as int),
                    has_nonzero <==> !block_all_zero(sb_coeffs@, sb_w as int, x0 as int, y0 as int, bw as int, y as int)
                        || !row_all_zero(sb_coeffs@, sb_w as int, x0 as int, y0 as int, y as int, x as int),
                decreases bw - x,
            {
                assert((y0 + y) * sb_w + x0 + x < (y0 + bh) * sb_w && y0 + y <= (y0 + y) * sb_w) by (nonlinear_arith)
                    requires
                        y < bh,
                        x0 + x < sb_w,
                ;
                let v = sb_coeffs[(y0 + y) * sb_w + x0 + x];
                if v <= -0x4000_0000 || v >= 0x4000_0000 {
                    proof {
                        assert(block_coeff(sb_coeffs@, sb_w as int, x0 as int, y0 as int, x as int, y as int) == v);
                        assert(!row_in_range(sb_coeffs@, sb_w as int, x0 as int, y0 as int, y as int, bw as int));
                    }
                    return Err(JpeglsError::InvalidData);
                }
                let ghost before = block@;
                block.push(v);
                if v != 0 {
                    has_nonzero = true;
                }
                proof {
                    let c = block_coeff(sb_coeffs@, sb_w as int, x0 as int, y0 as int, x as int, y as int);
                    assert(c == v);
                    assert(row_in_range(sb_coeffs@, sb_w as int, x0 as int, y0 as int, y as int, x + 1)) by {
                        assert forall|xx: int| 0 <= xx < x + 1 implies -0x4000_0000 < #[trigger] block_coeff(sb_coeffs@, sb_w as int, x0 as int, y0 as int, xx, y as int) < 0x4000_0000 by {
                            if xx < x {
                                assert(row_in_range(sb_coeffs@, sb_w as int, x0 as int, y0 as int, y as int, x as int));
                            }
                        }
                    }
                    if v != 0 {
                        assert(!row_all_zero(sb_coeffs@, sb_w as int, x0 as int, y0 as int, y as int, x + 1));
                    }
                    if !row_all_zero(sb_coeffs@, sb_w as int, x0 as int, y0 as int, y as int, x + 1) && v == 0 {
                        let xx = choose|xx: int| 0 <= xx < x + 1 && #[trigger] block_coeff(sb_coeffs@, sb_w as int, x0 as int, y0 as int, xx, y as int) != 0;
                        assert(xx < x);
                        assert(!row_all_zero(sb_coeffs@, sb_w as int, x0 as int, y0 as int, y as int, x as int));
                    }
                }
                proof {
                    if exists|i: int| 0 <= i < before.len() && #[trigger] before[i] != 0 {
                        let i = choose|i: int| 0 <= i < before.len() && #[trigger] before[i] != 0;
                        assert(block@[i] != 0);
                    }
                    if v != 0 {
                        assert(block@[before.len() as int] != 0);
                    }
                }
                x = x + 1;
            }
            assert((y + 1) * bw == y * bw + bw) by (nonlinear_arith);
            proof {
                lemma_block_grow(sb_coeffs@, sb_w as int, x0 as int, y0 as int, bw as int, y as int);
            }
            y = y + 1;
        }
        if !has_nonzero {
            return Ok(None);
        }
        if self.use_htj2k {
            return Err(JpeglsError::InvalidOperation);
        }
        proof {
            vstd::arithmetic::mul::lemma_mul_upper_bound(bw as int, 32768, bh as int, 32768);
            vstd::arithmetic::mul::lemma_mul_upper_bound((bh + 2) as int, 32770, (bw + 2) as int, 32770);
        }
        assert(block@.len() == bh * bw);
        assert(bh * bw == bw * bh) by (nonlinear_arith);
        let mut bpc = BitPlaneCoder::new(bw as u32, bh as u32, block.as_slice());
        let max_bp = match bpc.calculate_max_bit_plane() {
            Some(bp) => bp,
            None => 0,
        };
        proof {
            assert forall|i: int| 0 <= i < bpc.size() implies #[trigger] bpc.data@[i] != i32::MIN by {
                assert(-0x4000_0000 < block@[i]);
            }
        }
        let passes = bpc.encode_codeblock(max_bp, 0, orientation);
        bpc.mq.flush();
        let encoded = bpc.mq.get_buffer();
        let mb: u8 = if mb_base > 0 { mb_base - 1 } else { 0 };
        let top: u8 = if mb > 0 { mb - 1 } else { 0 };
        let zero_bp: u8 = if max_bp <= top { top - max_bp } else { 0 };
        let mut data: Vec<u8> = Vec::new();
        let mut k: usize = 0;
        while k < encoded.len()
            invariant
                k <= encoded@.len(),
                data@ == encoded@.take(k as int),
            decreases encoded@.len() - k,
        {
            data.push(encoded[k]);
            k = k + 1;
        }
        if data.len() > u32::MAX as usize {
            return Err(JpeglsError::InvalidData);
        }
        Ok(Some((passes, zero_bp, data)))
    }

    /// The number of `dim`-wide blocks that cover `n` samples.
    fn blocks_over(n: usize, dim: usize) -> (r: usize)
        requires
            dim >= 1,
        ensures
            r as int == (n as int + dim - 1) / (dim as int),
    {
        let q = n / dim;
        let m = n % dim;
        proof {
            vstd::arithmetic::div_mod::lemma_fundamental_div_mod(n as int, dim as int);
            assert((n as int + dim - 1) / (dim as int) == q + if m != 0 { 1int } else { 0int }) by (nonlinear_arith)
                requires
                    n == dim * q + m,
                    0 <= m < dim,
                    dim >= 1,
                    q >= 0,
            ;
            if m != 0 {
                assert(q < n) by (nonlinear_arith)
                    requires
                        n == dim * q + m,
                        0 < m,
                        dim >= 1,
                        q >= 0,
                ;
            }
        }
        q + if m != 0 { 1 } else { 0 }
    }

    /// Codes the coefficients of one component into one packet per resolution level
    /// (one layer, one precinct): for each subband of the level, its code-blocks in
    /// raster order; each block with a nonzero coefficient is coded with EBCOT and
    /// listed in the packet header, its bytes appended to the packet body. A level
    /// with no coded block gives an empty packet.
    pub fn encode_component_packets(
        &self,
        coeffs: &[i32],
        width: usize,
        height: usize,
        _cb_size: usize,
        num_levels: u8,
        depth: u8,
        guard_bits: u8,
        comp_idx: u8,
        step_sizes: &[u16],
    ) -> (r: Result<Vec<Packet>, JpeglsError>)
        requires
            (width as int + 1) * (height as int + 1) <= usize::MAX,
            depth <= 32,
            guard_bits <= 7,
        ensures
            r matches Ok(packets) ==> packets@.len() == num_levels + 1 && forall|k: int|
                0 <= k < packets@.len() ==> (#[trigger] packets@[k]).resolution == k && packets@[k].component == comp_idx
                    && packets@[k].layer == 0,
            r matches Err(e) ==> e == JpeglsError::InvalidData || e == JpeglsError::InvalidOperation || e
                == JpeglsError::ParameterValueNotSupported,
    {
        if self.codeblock_exp > 13 {
            return Err(JpeglsError::ParameterValueNotSupported);
        }
        let ce: usize = (self.codeblock_exp + 2) as usize;
        let cb_dim: usize = 1usize << ce;
        proof {
            lemma_one_shl_usize(ce);
            lemma_pow2_small(ce as nat);
            lemma_pow2_le(2, ce as nat);
            vstd::arithmetic::power2::lemma2_to64();
        }
        let num_resolutions: usize = num_levels as usize + 1;
        let mut packets: Vec<Packet> = Vec::new();
        let mut res: usize = 0;
        while res < num_resolutions
            invariant
                res <= num_resolutions,
                num_resolutions == num_levels + 1,
                4 <= cb_dim <= 32768,
                (width as int + 1) * (height as int + 1) <= usize::MAX,
                depth <= 32,
                guard_bits <= 7,
                packets@.len() == res,
                forall|k: int|
                    0 <= k < packets@.len() ==> (#[trigger] packets@[k]).resolution == k && packets@[k].component
                        == comp_idx && packets@[k].layer == 0,
            decreases num_resolutions - res,
        {
            let num_bands: usize = if res == 0 { 1 } else { 3 };
            let (ll_w, ll_h) = self.get_ll_size(width, height, num_levels as usize, res);
            let mut subband_grids: Vec<(usize, usize)> = Vec::new();
            let mut band: usize = 0;
            while band < num_bands
                invariant
                    band <= num_bands,
                    num_bands <= 3,
                    res < num_resolutions,
                    num_resolutions == num_levels + 1,
                    4 <= cb_dim <= 32768,
                    (ll_w as int, ll_h as int) == ll_size(width as int, height as int, num_levels as int, res as int),
                    subband_grids@.len() == band,
                    forall|k: int| 0 <= k < subband_grids@.len() ==> grid_fits(#[trigger] subband_grids@[k].0, subband_grids@[k].1),
                decreases num_bands - band,
            {
                let (sb_w, sb_h): (usize, usize) = if res == 0 {
                    (ll_w, ll_h)
                } else {
                    let (prev_w, prev_h) = self.get_ll_size(width, height, num_levels as usize, res - 1);
                    proof {
                        lemma_ll_size_grows(width as int, height as int, num_levels as int, res as int);
                    }
                    if band == 0 {
                        (ll_w - prev_w, prev_h)
                    } else if band == 1 {
                        (prev_w, ll_h - prev_h)
                    } else {
                        (ll_w - prev_w, ll_h - prev_h)
                    }
                };
                let gw = Self::blocks_over(sb_w, cb_dim);
                let gh = Self::blocks_over(sb_h, cb_dim);
                if !grid_fits_check(gw, gh) {
                    return Err(JpeglsError::InvalidData);
                }
                subband_grids.push((gw, gh));
                band = band + 1;
            }
            let mut precinct_state = PrecinctState::new(0, 0);
            let mut packet_header = PacketHeader {
                packet_seq_num: 0,
                empty: false,
                layer_index: 0,
                included_cblks: Vec::new(),
            };
            let mut packet_body: Vec<u8> = Vec::new();
            let mut band: usize = 0;
            while band < num_bands
                invariant
                    band <= num_bands,
                    num_bands <= 3,
                    num_bands == if res == 0 { 1usize } else { 3usize },
                    res < num_resolutions,
                    num_resolutions == num_levels + 1,
                    4 <= cb_dim <= 32768,
                    (width as int + 1) * (height as int + 1) <= usize::MAX,
                    depth <= 32,
                    guard_bits <= 7,
                    subband_grids@.len() == num_bands,
                    packet_header.layer_index == 0,
                    forall|i: int|
                        0 <= i < packet_header.included_cblks@.len() ==> writable_block(
                            #[trigger] packet_header.included_cblks@[i],
                        ),
                decreases num_bands - band,
            {
                let (grid_w, grid_h) = subband_grids[band];
                let (sb_coeffs, sb_w, sb_h) = self.extract_subband_coeffs(
                    coeffs,
                    width,
                    height,
                    num_levels as usize,
                    res,
                    band,
                );
                let qcd_idx: usize = if res == 0 { 0 } else { 1 + (res - 1) * 3 + band };
                let epsilon: u8 = if self.use_irreversible && qcd_idx < step_sizes.len() {
                    let step = step_sizes[qcd_idx];
                    let e: u16 = step >> 11u16;
                    proof {
                        lemma_u16_top5(step);
                    }
                    e as u8
                } else if qcd_idx == 0 {
                    depth
                } else if (qcd_idx - 1) % 3 < 2 {
                    depth + 1
                } else {
                    depth + 2
                };
                let mb_base: u8 = guard_bits + epsilon;
                let orientation: u8 = if res == 0 { 0 } else { band as u8 + 1 };
                let mut cby: usize = 0;
                while cby < grid_h
                    invariant
                        cby <= grid_h,
                        4 <= cb_dim <= 32768,
                        sb_coeffs@.len() == sb_w * sb_h,
                        packet_header.layer_index == 0,
                        band < num_bands <= 3,
                        forall|i: int|
                            0 <= i < packet_header.included_cblks@.len() ==> writable_block(
                                #[trigger] packet_header.included_cblks@[i],
                            ),
                    decreases grid_h - cby,
                {
                    let mut cbx: usize = 0;
                    while cbx < grid_w
                        invariant
                            cbx <= grid_w,
                            cby < grid_h,
                            4 <= cb_dim <= 32768,
                            sb_coeffs@.len() == sb_w * sb_h,
                            packet_header.layer_index == 0,
                            band < num_bands <= 3,
                            forall|i: int|
                                0 <= i < packet_header.included_cblks@.len() ==> writable_block(
                                    #[trigger] packet_header.included_cblks@[i],
                                ),
                        decreases grid_w - cbx,
                    {
                        let x0 = match cbx.checked_mul(cb_dim) {
                            Some(v) => v,
                            None => {
                                return Err(JpeglsError::InvalidData);
                            },
                        };
                        let y0 = match cby.checked_mul(cb_dim) {
                            Some(v) => v,
                            None => {
                                return Err(JpeglsError::InvalidData);
                            },
                        };
                        if x0 < sb_w && y0 < sb_h {
                            let bw = if sb_w - x0 < cb_dim { sb_w - x0 } else { cb_dim };
                            let bh = if sb_h - y0 < cb_dim { sb_h - y0 } else { cb_dim };
                            assert((y0 + bh) * sb_w <= sb_h * sb_w) by (nonlinear_arith)
                                requires
                                    y0 + bh <= sb_h,
                            ;
                            assert(sb_w * sb_h == sb_h * sb_w) by (nonlinear_arith);
                            match self.encode_block(&sb_coeffs, sb_w, x0, y0, bw, bh, orientation, mb_base) {
                                Ok(Some((passes, zero_bp, data))) => {
                                    let info = CodeBlockInfo {
                                        x: cbx,
                                        y: cby,
                                        subband_index: band as u8,
                                        included: true,
                                        num_passes: passes,
                                        data_len: data.len() as u32,
                                        zero_bp,
                                        numlenbits: 3,
                                    };
                                    proof {
                                        crate::jpeg2000::packet::lemma_floor_log2_bound(passes);
                                    }
                                    packet_header.included_cblks.push(info);
                                    let mut k: usize = 0;
                                    while k < data.len()
                                        invariant
                                            k <= data@.len(),
                                        decreases data@.len() - k,
                                    {
                                        packet_body.push(data[k]);
                                        k = k + 1;
                                    }
                                },
                                Ok(None) => {},
                                Err(e) => {
                                    return Err(e);
                                },
                            }
                        }
                        cbx = cbx + 1;
                    }
                    cby = cby + 1;
                }
                band = band + 1;
            }
            if packet_header.included_cblks.len() == 0 {
                packet_header.empty = true;
                packet_body = Vec::new();
            }
            let mut header_writer = J2kBitWriter::new();
            packet_header.write(&mut header_writer, &mut precinct_state, subband_grids.as_slice(), num_bands);
            packets.push(
                Packet {
                    resolution: res as u8,
                    component: comp_idx,
                    layer: 0,
                    header_data: header_writer.finish(),
                    body_data: packet_body,
                },
            );
            res = res + 1;
        }
        Ok(packets)
    }

    /// Writes the main header: SOC, CAP (HT coding asked for), SIZ, COD, QCD.
    fn write_main_header(
        &self,
        writer: &mut J2kWriter,
        width: u32,
        height: u32,
        comps: u16,
        depth: u8,
        cod: &J2kCod,
        qcd: &J2kQcd,
    ) -> (r: Result<(), JpeglsError>)
        requires
            old(writer).wf(),
            comps <= 1000,
            depth >= 1,
            qcd.step_sizes@.len() <= 0xFFFF,
        ensures
            final(writer).wf(),
            final(final(writer).writer.destination)@ == final(old(writer).writer.destination)@,
            final(writer).writer.cap() == old(writer).writer.cap(),
            r is Ok ==> final(writer).out() == old(writer).out() + main_header_bytes(
                self.use_htj2k,
                width,
                height,
                comps,
                ssiz_of(depth, self.is_signed),
                *cod,
                *qcd,
            ),
            r matches Err(e) ==> e == JpeglsError::ParameterValueNotSupported,
    {
        let ghost o = writer.out();
        writer.write_soc()?;
        if self.use_htj2k {
            writer.write_cap(true, comps)?;
        }
        writer.write_siz(width, height, width, height, comps, depth, self.is_signed, 1, 1)?;
        writer.write_cod(cod)?;
        writer.write_qcd(qcd)?;
        assert(writer.out() =~= o + main_header_bytes(
            self.use_htj2k,
            width,
            height,
            comps,
            ssiz_of(depth, self.is_signed),
            *cod,
            *qcd,
        ));
        Ok(())
    }

    /// Puts the packets of all components in layer, resolution, component order: the
    /// packets of each component come one per resolution, lowest first.
    fn order_packets(per_component: Vec<Vec<Packet>>, num_resolutions: usize) -> (r: Vec<Packet>)
        requires
            forall|c: int|
                0 <= c < per_component@.len() ==> (#[trigger] per_component@[c])@.len() == num_resolutions,
        ensures
            r@.len() == num_resolutions * per_component@.len(),
    {
        let mut per_component = per_component;
        let comps = per_component.len();
        let mut out: Vec<Packet> = Vec::new();
        let mut res: usize = 0;
        while res < num_resolutions
            invariant
                res <= num_resolutions,
                per_component@.len() == comps,
                forall|c: int|
                    0 <= c < comps ==> (#[trigger] per_component@[c])@.len() == num_resolutions - res,
                out@.len() == res * comps,
            decreases num_resolutions - res,
        {
            let mut c: usize = 0;
            while c < comps
                invariant
                    c <= comps,
                    res < num_resolutions,
                    per_component@.len() == comps,
                    forall|k: int|
                        0 <= k < c ==> (#[trigger] per_component@[k])@.len() == num_resolutions - res - 1,
                    forall|k: int|
                        c <= k < comps ==> (#[trigger] per_component@[k])@.len() == num_resolutions - res,
                    out@.len() == res * comps + c,
                decreases comps - c,
            {
                let mut list = per_component.remove(c);
                let p = list.remove(0);
                per_component.insert(c, list);
                out.push(p);
                c = c + 1;
            }
            assert((res + 1) * comps == res * comps + comps) by (nonlinear_arith);
            res = res + 1;
        }
        assert(num_resolutions * comps == res * comps);
        out
    }

    /// The number of bytes a PLT segment spends on `lengths`.
    fn plt_data_len(lengths: &Vec<u32>) -> (r: Option<usize>)
        ensures
            r matches Some(n) ==> n == plt_lengths(lengths@).len(),
            r is None <==> plt_lengths(lengths@).len() > usize::MAX,
    {
        let mut total: usize = 0;
        let mut k: usize = 0;
        while k < lengths.len()
            invariant
                k <= lengths@.len(),
                total == plt_lengths(lengths@.take(k as int)).len(),
            decreases lengths@.len() - k,
        {
            let enc = crate::jpeg2000::writer::plt_encode(lengths[k]);
            proof {
                let t = lengths@.take(k + 1);
                assert(t.drop_last() =~= lengths@.take(k as int));
            }
            total = match total.checked_add(enc.len()) {
                Some(v) => v,
                None => {
                    proof {
                        lemma_plt_lengths_prefix(lengths@, k + 1);
                    }
                    return None;
                },
            };
            k = k + 1;
        }
        assert(lengths@.take(lengths@.len() as int) =~= lengths@);
        Some(total)
    }

    /// The packets of every component in layer, resolution, component order, with
    /// their lengths.
    fn component_packets(
        &self,
        component_coeffs: &Vec<Vec<i32>>,
        width: u32,
        height: u32,
        depth: u8,
        decomposition_levels: u8,
        guard_bits: u8,
        step_sizes: &Vec<u16>,
    ) -> (r: Result<(Vec<Packet>, Vec<u32>, u64), JpeglsError>)
        requires
            1 <= depth <= 32,
            guard_bits <= 7,
            component_coeffs@.len() <= 1000,
            (width as int + 1) * (height as int + 1) <= usize::MAX,
        ensures
            r matches Ok((packets, lengths, total)) ==> lengths@.len() == packets@.len() && total <= u64::MAX - 0x2_0000_0000,
            r matches Ok((packets, lengths, total)) ==> {
                &&& packets@.len() == (decomposition_levels + 1) * component_coeffs@.len()
                &&& forall|i: int|
                    0 <= i < packets@.len() ==> #[trigger] lengths@[i] == packets@[i].header_data@.len()
                        + packets@[i].body_data@.len()
                &&& total == length_sum(lengths@)
            },
            r matches Err(e) ==> e == JpeglsError::InvalidData || e == JpeglsError::InvalidOperation || e
                == JpeglsError::ParameterValueNotSupported,
    {
        let comps = component_coeffs.len();
        let num_resolutions: usize = decomposition_levels as usize + 1;
        let mut per_component: Vec<Vec<Packet>> = Vec::new();
        let mut c: usize = 0;
        while c < comps
            invariant
                c <= comps,
                comps == component_coeffs@.len(),
                comps <= 1000,
                num_resolutions == decomposition_levels + 1,
                1 <= depth <= 32,
                guard_bits <= 7,
                (width as int + 1) * (height as int + 1) <= usize::MAX,
                per_component@.len() == c,
                forall|k: int| 0 <= k < c ==> (#[trigger] per_component@[k])@.len() == num_resolutions,
            decreases comps - c,
        {
            let packets = self.encode_component_packets(
                component_coeffs[c].as_slice(),
                width as usize,
                height as usize,
                0,
                decomposition_levels,
                depth,
                guard_bits,
                c as u8,
                step_sizes.as_slice(),
            )?;
            per_component.push(packets);
            c = c + 1;
        }
        let packets = Self::order_packets(per_component, num_resolutions);
        let mut lengths: Vec<u32> = Vec::new();
        let mut total: u64 = 0;
        let mut k: usize = 0;
        while k < packets.len()
            invariant
                k <= packets@.len(),
                lengths@.len() == k,
                total <= u64::MAX - 0x2_0000_0000,
                forall|i: int|
                    0 <= i < k ==> #[trigger] lengths@[i] == packets@[i].header_data@.len() + packets@[i].body_data@.len(),
                total == length_sum(lengths@),
            decreases packets@.len() - k,
        {
            let a = packets[k].header_data.len();
            let b = packets[k].body_data.len();
            if a > u32::MAX as usize || b > u32::MAX as usize {
                return Err(JpeglsError::InvalidData);
            }
            let n: u64 = a as u64 + b as u64;
            if n > u32::MAX as u64 || total > u64::MAX - 0x2_0000_0000 - n {
                return Err(JpeglsError::InvalidData);
            }
            let ghost prior = lengths@;
            lengths.push(n as u32);
            assert(lengths@.drop_last() =~= prior);
            total = total + n;
            k = k + 1;
        }
        Ok((packets, lengths, total))
    }

    /// Writes the codestream of transformed coefficients (one array per component, in
    /// a `width` by `height` layout): the main header, TLM when asked for, SOT, PLT when
    /// asked for, SOD, the packets of all components in layer, resolution, component
    /// order, EOC. Gives the bytes written.
    pub fn encode_coefficients(
        &self,
        component_coeffs: &Vec<Vec<i32>>,
        width: u32,
        height: u32,
        depth: u8,
        decomposition_levels: u8,
        guard_bits: u8,
        quant_style: u8,
        step_sizes: &Vec<u16>,
        destination: &mut [u8],
    ) -> (r: Result<usize, JpeglsError>)
        requires
            1 <= depth <= 32,
            guard_bits <= 7,
            component_coeffs@.len() <= 1000,
            step_sizes@.len() <= 0xFFFF,
            (width as int + 1) * (height as int + 1) <= usize::MAX,
        ensures
            r matches Ok(n) ==> {
                let out = final(destination)@.subrange(0, n as int);
                &&& n <= final(destination)@.len()
                &&& n >= 4
                &&& out.subrange(0, 2) == marker_bytes(JpegMarkerCode::StartOfCodestream)
                &&& out.subrange(n - 2, n as int) == marker_bytes(JpegMarkerCode::EndOfImage)
            },
            r matches Err(e) ==> e == JpeglsError::InvalidData || e == JpeglsError::InvalidOperation || e
                == JpeglsError::ParameterValueNotSupported,
            r matches Ok(n) ==> (self.include_tlm ==> has_marker(
                final(destination)@.subrange(0, n as int),
                JpegMarkerCode::TilePartLengths,
            )),
            r matches Ok(n) ==> (self.include_plt && component_coeffs@.len() > 0 ==> has_marker(
                final(destination)@.subrange(0, n as int),
                JpegMarkerCode::PacketLengths,
            )),
            r matches Ok(n) ==> {
                let hdr = encoder_header(
                    *self,
                    width,
                    height,
                    component_coeffs@.len() as u16,
                    depth,
                    decomposition_levels,
                    quant_style,
                    step_sizes@,
                );
                &&& hdr.len() + 2 <= n
                &&& final(destination)@.subrange(0, hdr.len() as int) == hdr
            },
    {
        let comps = component_coeffs.len();
        let (packets, lengths, total) = self.component_packets(
            component_coeffs,
            width,
            height,
            depth,
            decomposition_levels,
            guard_bits,
            step_sizes,
        )?;
        let plt_data: usize = if self.include_plt {
            match Self::plt_data_len(&lengths) {
                Some(n) => {
                    if n > 0xFFFF_FFFF {
                        return Err(JpeglsError::InvalidData);
                    }
                    n
                },
                None => {
                    return Err(JpeglsError::InvalidData);
                },
            }
        } else {
            0
        };
        let plt_len: u64 = if self.include_plt { 5 + plt_data as u64 } else { 0 };
        let tile_total_len: u64 = 12 + plt_len + 2 + total + 2;
        let cod = J2kCod {
            coding_style: 0,
            progression_order: 0,
            number_of_layers: 1,
            mct: if comps >= 3 { 1 } else { 0 },
            decomposition_levels,
            transformation: if self.use_irreversible { 0 } else { 1 },
            codeblock_width_exp: self.codeblock_exp,
            codeblock_height_exp: self.codeblock_exp,
            code_block_style: if self.use_htj2k { 0x40 } else { 0 },
            precinct_sizes: Vec::new(),
        };
        let mut steps: Vec<u16> = Vec::new();
        let mut k: usize = 0;
        while k < step_sizes.len()
            invariant
                k <= step_sizes@.len(),
                steps@ == step_sizes@.take(k as int),
            decreases step_sizes@.len() - k,
        {
            steps.push(step_sizes[k]);
            k = k + 1;
        }
        assert(step_sizes@.take(step_sizes@.len() as int) =~= step_sizes@);
        let qcd = J2kQcd { quant_style, step_sizes: steps };
        if self.include_plt && (1 + plt_data as u64) % 65536 + 2 > 65535 {
            return Err(JpeglsError::ParameterValueNotSupported);
        }
        assert(comps > 0 ==> lengths@.len() > 0) by {
            if comps > 0 {
                assert((decomposition_levels + 1) * comps > 0) by (nonlinear_arith)
                    requires
                        comps > 0,
                ;
            }
        }
        let outcome = self.write_codestream(
            destination,
            width,
            height,
            comps as u16,
            depth,
            &cod,
            &qcd,
            (tile_total_len % 0x1_0000_0000) as u32,
            &lengths,
            &packets,
        );
        assert(crate::jpeg2000::writer::cod_bytes(cod) =~= encoder_cod_bytes(*self, comps as int, decomposition_levels));
        assert(crate::jpeg2000::writer::qcd_bytes(qcd) =~= crate::jpeg2000::writer::qcd_seq_bytes(quant_style, step_sizes@));
        assert(main_header_bytes(self.use_htj2k, width, height, comps as u16, ssiz_of(depth, self.is_signed), cod, qcd)
            =~= encoder_header(*self, width, height, comps as u16, depth, decomposition_levels, quant_style, step_sizes@));
        outcome
    }

    /// Writes the main header, the tile-part header and the packets, then EOC.
    #[verifier::rlimit(50)]
    #[verifier::spinoff_prover]
    fn write_codestream(
        &self,
        destination: &mut [u8],
        width: u32,
        height: u32,
        comps: u16,
        depth: u8,
        cod: &J2kCod,
        qcd: &J2kQcd,
        tile_len: u32,
        lengths: &Vec<u32>,
        packets: &Vec<Packet>,
    ) -> (r: Result<usize, JpeglsError>)
        requires
            1 <= depth <= 32,
            comps <= 1000,
            qcd.step_sizes@.len() <= 0xFFFF,
            self.include_plt ==> (1 + plt_lengths(lengths@).len()) % 65536 + 2 <= u16::MAX,
        ensures
            r matches Ok(n) ==> {
                let out = final(destination)@.subrange(0, n as int);
                &&& n <= final(destination)@.len()
                &&& n >= 4
                &&& out.subrange(0, 2) == marker_bytes(JpegMarkerCode::StartOfCodestream)
                &&& out.subrange(n - 2, n as int) == marker_bytes(JpegMarkerCode::EndOfImage)
            },
            r matches Err(e) ==> e == JpeglsError::ParameterValueNotSupported,
            r matches Ok(n) ==> (self.include_tlm ==> has_marker(
                final(destination)@.subrange(0, n as int),
                JpegMarkerCode::TilePartLengths,
            )),
            r matches Ok(n) ==> (self.include_plt && lengths@.len() > 0 ==> has_marker(
                final(destination)@.subrange(0, n as int),
                JpegMarkerCode::PacketLengths,
            )),
            r matches Ok(n) ==> {
                let hdr = main_header_bytes(self.use_htj2k, width, height, comps, ssiz_of(depth, self.is_signed), *cod, *qcd);
                &&& hdr.len() + 2 <= n
                &&& final(destination)@.subrange(0, hdr.len() as int) == hdr
            },
    {
        let mut writer = J2kWriter::new(destination);
        let ghost fin = final(writer.writer.destination)@;
        self.write_main_header(&mut writer, width, height, comps, depth, cod, qcd)?;
        let ghost hdr = writer.out();
        assert(hdr =~= main_header_bytes(self.use_htj2k, width, height, comps, ssiz_of(depth, self.is_signed), *cod, *qcd));
        let ghost hl = hdr.len() as int;
        assert(writer.out().subrange(0, hl) =~= hdr);
        assert(writer.out().subrange(0, 2) =~= marker_bytes(JpegMarkerCode::StartOfCodestream));
        let ghost mut tlm_at: int = 0;
        let ghost mut plt_at: int = 0;
        if self.include_tlm {
            proof {
                tlm_at = writer.out().len() as int;
            }
            let ghost o0 = writer.out();
            writer.write_tlm(0, tile_len, 1)?;
            assert(writer.out().subrange(tlm_at, tlm_at + 2) =~= marker_bytes(JpegMarkerCode::TilePartLengths));
            assert(writer.out().subrange(0, hl) =~= o0.subrange(0, hl));
        }
        let ghost o1 = writer.out();
        writer.write_sot(0, 0, 0, 1)?;
        assert(writer.out().subrange(0, hl) =~= o1.subrange(0, hl));
        assert(self.include_tlm ==> writer.out().subrange(tlm_at, tlm_at + 2) =~= o1.subrange(tlm_at, tlm_at + 2));
        if self.include_plt {
            let ghost o2 = writer.out();
            proof {
                plt_at = writer.out().len() as int;
            }
            writer.write_plt(lengths.as_slice())?;
            assert(writer.out().subrange(0, hl) =~= o2.subrange(0, hl));
            assert(self.include_tlm ==> writer.out().subrange(tlm_at, tlm_at + 2) =~= o2.subrange(tlm_at, tlm_at + 2));
            assert(lengths@.len() > 0 ==> writer.out().subrange(plt_at, plt_at + 2) =~= marker_bytes(
                JpegMarkerCode::PacketLengths,
            ));
        }
        let ghost o3 = writer.out();
        writer.write_sod()?;
        assert(writer.out().subrange(0, hl) =~= o3.subrange(0, hl));
        assert(self.include_tlm ==> writer.out().subrange(tlm_at, tlm_at + 2) =~= o3.subrange(tlm_at, tlm_at + 2));
        assert(self.include_plt && lengths@.len() > 0 ==> writer.out().subrange(plt_at, plt_at + 2) =~= o3.subrange(
            plt_at,
            plt_at + 2,
        ));
        let mut k: usize = 0;
        while k < packets.len()
            invariant
                k <= packets@.len(),
                writer.wf(),
                final(writer.writer.destination)@ == fin,
                writer.out().len() >= 2,
                writer.out().subrange(0, 2) == marker_bytes(JpegMarkerCode::StartOfCodestream),
                writer.out().len() >= hl,
                writer.out().subrange(0, hl) == hdr,
                hl == hdr.len(),
                self.include_tlm ==> marker_at(writer.out(), tlm_at, JpegMarkerCode::TilePartLengths),
                self.include_plt && lengths@.len() > 0 ==> marker_at(writer.out(), plt_at, JpegMarkerCode::PacketLengths),
            decreases packets@.len() - k,
        {
            let ghost before = writer.out();
            writer.write_bytes(packets[k].header_data.as_slice())?;
            writer.write_bytes(packets[k].body_data.as_slice())?;
            assert(writer.out().subrange(0, 2) =~= before.subrange(0, 2));
            assert(writer.out().subrange(0, hl) =~= before.subrange(0, hl));
            assert(self.include_tlm ==> writer.out().subrange(tlm_at, tlm_at + 2) =~= before.subrange(tlm_at, tlm_at + 2));
            assert(self.include_plt && lengths@.len() > 0 ==> writer.out().subrange(plt_at, plt_at + 2)
                =~= before.subrange(plt_at, plt_at + 2));
            k = k + 1;
        }
        let ghost before = writer.out();
        writer.write_eoc()?;
        let n = writer.len();
        proof {
            let out = writer.out();
            assert(out =~= before + marker_bytes(JpegMarkerCode::EndOfImage));
            assert(out.subrange(0, 2) =~= before.subrange(0, 2));
            assert(out.subrange(0, hl) =~= before.subrange(0, hl));
            assert(out.subrange(n - 2, n as int) =~= marker_bytes(JpegMarkerCode::EndOfImage));
            if self.include_tlm {
                assert(out.subrange(tlm_at, tlm_at + 2) =~= before.subrange(tlm_at, tlm_at + 2));
                assert(marker_at(out, tlm_at, JpegMarkerCode::TilePartLengths));
            }
            if self.include_plt && lengths@.len() > 0 {
                assert(out.subrange(plt_at, plt_at + 2) =~= before.subrange(plt_at, plt_at + 2));
                assert(marker_at(out, plt_at, JpegMarkerCode::PacketLengths));
            }
        }
        Ok(n)
    }


    /// `floor(log2(n))` for `n >= 1`, 0 for `n == 0`.
    fn floor_log2(n: usize) -> (r: u8)
        ensures
            n >= 1 ==> vstd::arithmetic::power2::pow2(r as nat) <= n < vstd::arithmetic::power2::pow2((r + 1) as nat),
            n == 0 ==> r == 0,
            r == log2_floor(n as nat),
    {
        if n == 0 {
            return 0;
        }
        let mut r: u8 = 0;
        let mut m: usize = n;
        proof {
            vstd::arithmetic::power2::lemma2_to64();
        }
        while m > 1
            invariant
                1 <= m <= n,
                r < 64,
                r + log2_floor(m as nat) == log2_floor(n as nat),
                m * vstd::arithmetic::power2::pow2(r as nat) <= n < (m + 1) * vstd::arithmetic::power2::pow2(r as nat),
            decreases m,
        {
            proof {
                vstd::arithmetic::power2::lemma_pow2_unfold((r + 1) as nat);
                let p = vstd::arithmetic::power2::pow2(r as nat);
                vstd::arithmetic::power2::lemma_pow2_pos(r as nat);
                assert((m / 2) * (2 * p) <= m * p && (m + 1) * p <= (m / 2 + 1) * (2 * p) && 2 * p <= m * p)
                    by (nonlinear_arith)
                    requires
                        p > 0,
                        m >= 2,
                ;
                if r + 1 >= 64 {
                    vstd::arithmetic::power2::lemma2_to64();
                    if r + 1 > 64 {
                        vstd::arithmetic::power2::lemma_pow2_strictly_increases(64, (r + 1) as nat);
                    }
                    assert(false);
                }
            }
            m = m / 2;
            r = r + 1;
        }
        proof {
            vstd::arithmetic::power2::lemma_pow2_unfold((r + 1) as nat);
        }
        r
    }

    /// Encodes `pixels` (interleaved components, 8-bit samples up to 8 bits per sample,
    /// else 16-bit little-endian ones) as a lossless JPEG 2000 codestream: level shift (signed samples are read as two's
    /// complement and not shifted),
    /// the reversible color transform for three components, the 5/3 transform over
    /// `min(levels asked, floor(log2 of the smaller image side), 5)` levels (the count that
    /// COD signals), and the codestream of [`Self::encode_coefficients`], with guard bits
    /// 3 for three components or more, else 2. Gives the bytes written; the encoder's
    /// settings are left as they were.
    ///
    /// Too few pixels, or an image too large to index, is `InvalidData`; more than 1000
    /// components, or a full destination, is `ParameterValueNotSupported`. The 9/7 path
    /// needs floating point, which this library leaves to its caller: with it asked
    /// for, `InvalidOperation`.
    pub fn encode(&mut self, pixels: &[u8], frame_info: &FrameInfo, destination: &mut [u8]) -> (r: Result<
        usize,
        JpeglsError,
    >)
        requires
            1 <= frame_info.bits_per_sample <= 31,
            frame_info.component_count == 3 ==> frame_info.bits_per_sample <= 30,
            frame_info.component_count >= 0,
        ensures
            r matches Ok(n) ==> {
                let out = final(destination)@.subrange(0, n as int);
                &&& n <= final(destination)@.len()
                &&& n >= 4
                &&& out.subrange(0, 2) == marker_bytes(JpegMarkerCode::StartOfCodestream)
                &&& out.subrange(n - 2, n as int) == marker_bytes(JpegMarkerCode::EndOfImage)
            },
            ({
                let bytes = if frame_info.bits_per_sample > 8 { 2int } else { 1int };
                pixels@.len() < frame_info.width * frame_info.height * frame_info.component_count * bytes ==> r
                    == Err::<usize, JpeglsError>(JpeglsError::InvalidData) && final(destination)@ == old(
                    destination,
                )@
            }),
            old(self).use_irreversible && frame_info.component_count <= 1000 ==> r is Err,
            r matches Err(e) ==> e == JpeglsError::InvalidData || e == JpeglsError::InvalidOperation || e
                == JpeglsError::ParameterValueNotSupported,
            r matches Ok(n) ==> (old(self).include_tlm ==> has_marker(
                final(destination)@.subrange(0, n as int),
                JpegMarkerCode::TilePartLengths,
            )),
            r matches Ok(n) ==> (old(self).include_plt && frame_info.component_count > 0 ==> has_marker(
                final(destination)@.subrange(0, n as int),
                JpegMarkerCode::PacketLengths,
            )),
            *final(self) == *old(self),
            r matches Ok(n) ==> {
                let depth = frame_info.bits_per_sample as u8;
                let levels = coded_levels(old(self).decomposition_levels, frame_info.width as int, frame_info.height as int);
                let guard_bits: u8 = if frame_info.component_count >= 3 { 3 } else { 2 };
                let hdr = encoder_header(
                    *old(self),
                    frame_info.width,
                    frame_info.height,
                    frame_info.component_count as u16,
                    depth,
                    levels,
                    guard_bits << 5u8,
                    encoder_steps(depth, levels),
                );
                &&& hdr.len() + 2 <= n
                &&& final(destination)@.subrange(0, hdr.len() as int) == hdr
            },
    {
        let width = frame_info.width as usize;
        let height = frame_info.height as usize;
        let components = frame_info.component_count as usize;
        let depth = frame_info.bits_per_sample as u8;
        let bytes_per_sample: usize = if depth > 8 { 2 } else { 1 };
        let expected = match width.checked_mul(height) {
            Some(a) => match a.checked_mul(components) {
                Some(b) => b.checked_mul(bytes_per_sample),
                None => None,
            },
            None => None,
        };
        let expected = match expected {
            Some(e) => e,
            None => {
                return Err(JpeglsError::InvalidData);
            },
        };
        if pixels.len() < expected {
            return Err(JpeglsError::InvalidData);
        }
        if components > 1000 {
            return Err(JpeglsError::ParameterValueNotSupported);
        }
        if self.use_irreversible {
            return Err(JpeglsError::InvalidOperation);
        }
        let w1 = match width.checked_add(1) {
            Some(v) => v,
            None => {
                return Err(JpeglsError::InvalidData);
            },
        };
        let h1 = match height.checked_add(1) {
            Some(v) => v,
            None => {
                return Err(JpeglsError::InvalidData);
            },
        };
        if w1.checked_mul(h1).is_none() {
            return Err(JpeglsError::InvalidData);
        }
        let smaller = if width < height { width } else { height };
        let max_levels = Self::floor_log2(smaller);
        let mut levels = self.decomposition_levels;
        if max_levels < levels {
            levels = max_levels;
        }
        if levels > 5 {
            levels = 5;
        }
        assert(levels == coded_levels(self.decomposition_levels, frame_info.width as int, frame_info.height as int));
        let guard_bits: u8 = if components >= 3 { 3 } else { 2 };
        let num_subbands: usize = 1 + 3 * levels as usize;
        let quant_style: u8 = guard_bits << 5u8;
        let mut step_sizes: Vec<u16> = Vec::new();
        let mut i: usize = 0;
        while i < num_subbands
            invariant
                i <= num_subbands,
                num_subbands <= 16,
                num_subbands == 1 + 3 * levels,
                1 <= depth <= 32,
                step_sizes@.len() == i,
                step_sizes@ == encoder_steps(depth, levels).take(i as int),
            decreases num_subbands - i,
        {
            let epsilon: u8 = if i == 0 {
                depth
            } else if (i - 1) % 3 < 2 {
                depth + 1
            } else {
                depth + 2
            };
            step_sizes.push((epsilon as u16) << 11u16);
            assert(step_sizes@ =~= encoder_steps(depth, levels).take(i + 1));
            i = i + 1;
        }
        assert(step_sizes@ =~= encoder_steps(depth, levels));
        let sh = (depth - 1) as u32;
        let level_shift: i32 = 1i32 << sh;
        proof {
            lemma_one_shl_i32(sh);
            lemma_pow2_small(sh as nat);
        }
        let component_data = match Self::shifted_components(
            pixels,
            width,
            height,
            components,
            depth,
            level_shift,
            self.is_signed,
        ) {
            Some(d) => d,
            None => {
                return Err(JpeglsError::InvalidData);
            },
        };
        let mut component_data = component_data;
        if components == 3 {
            Self::forward_rct(&mut component_data, width * height);
        }
        let transform = J2kEncoder { decomposition_levels: levels, ..*self };
        let mut coeffs: Vec<Vec<i32>> = Vec::new();
        let mut c: usize = 0;
        while c < components
            invariant
                c <= components,
                components <= 1000,
                component_data@.len() == components,
                forall|k: int| 0 <= k < components ==> (#[trigger] component_data@[k])@.len() == width * height,
                coeffs@.len() == c,
            decreases components - c,
        {
            let mut data = component_data[c].clone();
            let t = transform.apply_forward_dwt_2d(data.as_mut_slice(), width, height)?;
            coeffs.push(t);
            c = c + 1;
        }
        let outcome = self.encode_coefficients(
            &coeffs,
            frame_info.width,
            frame_info.height,
            depth,
            levels,
            guard_bits,
            quant_style,
            &step_sizes,
            destination,
        );
        assert(coeffs@.len() as u16 == frame_info.component_count as u16);
        outcome
    }

    /// The samples of each component: sample `i` of component `c` is byte `i * comps + c`,
    /// or (deeper than 8 bits) the little-endian pair at twice that; less the level shift
    /// for unsigned samples, read as two's complement for signed ones.
    fn shifted_components(
        pixels: &[u8],
        width: usize,
        height: usize,
        comps: usize,
        depth: u8,
        level_shift: i32,
        is_signed: bool,
    ) -> (r: Option<Vec<Vec<i32>>>)
        requires
            1 <= level_shift <= 0x4000_0000,
            pixels@.len() >= width * height * comps * (if depth > 8 { 2int } else { 1int }),
        ensures
            r matches Some(d) ==> d@.len() == comps && forall|c: int|
                0 <= c < comps ==> (#[trigger] d@[c])@.len() == width * height && forall|i: int|
                    0 <= i < width * height ==> -sample_floor(level_shift, is_signed) <= #[trigger] d@[c]@[i] <= 65535,
            r is None <==> width * height > usize::MAX,
            r matches Some(d) ==> forall|c: int, i: int|
                0 <= c < comps && 0 <= i < width * height ==> #[trigger] d@[c]@[i] == coded_sample(
                    pixels@,
                    i * comps + c,
                    depth,
                    level_shift,
                    is_signed,
                ),
    {
        let n = match width.checked_mul(height) {
            Some(v) => v,
            None => {
                return None;
            },
        };
        let total = pixels.len();
        let mut out: Vec<Vec<i32>> = Vec::new();
        let mut c: usize = 0;
        while c < comps
            invariant
                c <= comps,
                n == width * height,
                total == pixels@.len(),
                pixels@.len() >= n * comps * (if depth > 8 { 2int } else { 1int }),
                1 <= level_shift <= 0x4000_0000,
                out@.len() == c,
                forall|k: int|
                    0 <= k < c ==> (#[trigger] out@[k])@.len() == n && forall|i: int|
                        0 <= i < n ==> -sample_floor(level_shift, is_signed) <= #[trigger] out@[k]@[i] <= 65535,
                forall|k: int, i: int|
                    0 <= k < c && 0 <= i < n ==> #[trigger] out@[k]@[i] == coded_sample(pixels@, i * comps + k, depth, level_shift, is_signed),
            decreases comps - c,
        {
            let mut samples: Vec<i32> = Vec::new();
            let mut i: usize = 0;
            while i < n
                invariant
                    i <= n,
                    c < comps,
                    total == pixels@.len(),
                    pixels@.len() >= n * comps * (if depth > 8 { 2int } else { 1int }),
                    1 <= level_shift <= 0x4000_0000,
                    samples@.len() == i,
                    forall|k: int| 0 <= k < i ==> -sample_floor(level_shift, is_signed) <= #[trigger] samples@[k] <= 65535,
                    forall|k: int|
                        0 <= k < i ==> #[trigger] samples@[k] == coded_sample(pixels@, k * comps + c, depth, level_shift, is_signed),
                decreases n - i,
            {
                assert(i * comps + c < n * comps) by (nonlinear_arith)
                    requires
                        i < n,
                        c < comps,
                ;
                let idx = i * comps + c;
                let val: i32 = if depth > 8 {
                    assert(2 * idx + 1 < n * comps * 2) by (nonlinear_arith)
                        requires
                            idx < n * comps,
                    ;
                    let b0 = pixels[2 * idx] as i32;
                    let b1 = pixels[2 * idx + 1] as i32;
                    (b1 * 256) + b0
                } else {
                    assert(n * comps * 1 == n * comps);
                    pixels[idx] as i32
                };
                let coded: i32 = if !is_signed {
                    val - level_shift
                } else if depth > 8 {
                    if val >= 0x8000 { val - 0x1_0000 } else { val }
                } else {
                    if val >= 0x80 { val - 0x100 } else { val }
                };
                samples.push(coded);
                i = i + 1;
            }
            let ghost prior = out@;
            out.push(samples);
            assert forall|k: int, i: int|
                0 <= k < c + 1 && 0 <= i < n implies #[trigger] out@[k]@[i] == coded_sample(pixels@, i * comps + k, depth, level_shift, is_signed) by {
                if k < c {
                    assert(out@[k] == prior[k]);
                }
            }
            c = c + 1;
        }
        Some(out)
    }

    /// Applies the reversible color transform to the first `n` pixels of three
    /// components.
    fn forward_rct(data: &mut Vec<Vec<i32>>, n: usize)
        requires
            old(data)@.len() == 3,
            forall|c: int|
                0 <= c < 3 ==> (#[trigger] old(data)@[c])@.len() == n && forall|i: int|
                    0 <= i < n ==> -0x2000_0000 <= #[trigger] old(data)@[c]@[i] <= 65535,
        ensures
            final(data)@.len() == 3,
            forall|c: int| 0 <= c < 3 ==> (#[trigger] final(data)@[c])@.len() == n,
            forall|i: int|
                0 <= i < n ==> (final(data)@[0]@[i] as int, final(data)@[1]@[i] as int, final(data)@[2]@[i] as int)
                    == rct_forward(
                    #[trigger] old(data)@[0]@[i] as int,
                    old(data)@[1]@[i] as int,
                    old(data)@[2]@[i] as int,
                ),
    {
        let mut red = data.remove(0);
        let mut green = data.remove(0);
        let mut blue = data.remove(0);
        let ghost r0 = red@;
        let ghost g0 = green@;
        let ghost b0 = blue@;
        let mut i: usize = 0;
        while i < n
            invariant
                i <= n,
                red@.len() == n && green@.len() == n && blue@.len() == n,
                r0.len() == n && g0.len() == n && b0.len() == n,
                forall|k: int| 0 <= k < n ==> -0x2000_0000 <= #[trigger] r0[k] <= 65535,
                forall|k: int| 0 <= k < n ==> -0x2000_0000 <= #[trigger] g0[k] <= 65535,
                forall|k: int| 0 <= k < n ==> -0x2000_0000 <= #[trigger] b0[k] <= 65535,
                forall|k: int| i <= k < n ==> red@[k] == r0[k] && green@[k] == g0[k] && blue@[k] == b0[k],
                forall|k: int|
                    0 <= k < i ==> (red@[k] as int, green@[k] as int, blue@[k] as int) == #[trigger] rct_forward(
                        r0[k] as int,
                        g0[k] as int,
                        b0[k] as int,
                    ),
            decreases n - i,
        {
            let r = red[i];
            let g = green[i];
            let b = blue[i];
            assert(red@[i as int] == r0[i as int] && green@[i as int] == g0[i as int] && blue@[i as int] == b0[i as int]);
            assert(-0x2000_0000 <= r0[i as int] <= 65535);
            assert(-0x2000_0000 <= g0[i as int] <= 65535);
            assert(-0x2000_0000 <= b0[i as int] <= 65535);
            let s = r + 2 * g + b;
            let y = s >> 2i32;
            proof {
                lemma_i32_halves(s);
            }
            red.set(i, y);
            green.set(i, b - g);
            blue.set(i, r - g);
            i = i + 1;
        }
        data.push(red);
        data.push(green);
        data.push(blue);
    }
}

} // verus!
