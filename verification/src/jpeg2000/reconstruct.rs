//! Reconstruction of the samples of a decoded reversible image: code-blocks placed in
//! their subbands, the inverse 5/3 transform level by level, the inverse colour
//! transform, the level shift and the packing into bytes.
use crate::jpeg2000::dwt::{bounded, in_i32, inverse53_2d, lemma_bounded_inverse53_2d_fits, Dwt53};
use crate::jpeg2000::encoder::rct_inverse;
use crate::jpeg2000::image::{
    J2kCodeBlock, J2kComponentInfo, J2kImage, J2kResolution, J2kSubband, J2kTileComponent, SubbandOrientation,
};
use vstd::arithmetic::power2::pow2;
use vstd::prelude::*;

verus! {

/// Sample `(dx, dy)` of a subband of `sbw` columns, as code-block `cb` of nominal size
/// `nom_w` by `nom_h` sets it over `under`: the block's coefficient at that position when
/// the block covers it and has that coefficient, else `under`.
pub open spec fn block_sample(cb: J2kCodeBlock, nom_w: int, nom_h: int, dx: int, dy: int, under: i32) -> i32 {
    let cx = dx - cb.x * nom_w;
    let cy = dy - cb.y * nom_h;
    if 0 <= cx < cb.width && 0 <= cy < cb.height && cy * cb.width + cx < cb.coefficients@.len() {
        cb.coefficients@[cy * cb.width + cx]
    } else {
        under
    }
}

/// The `sbw` by `sbh` samples of a subband after its first `n` code-blocks were placed,
/// row by row, a later block over an earlier one, zero where none covers.
pub open spec fn placed_blocks(cbs: Seq<J2kCodeBlock>, n: int, sbw: int, sbh: int, nom_w: int, nom_h: int) -> Seq<i32>
    decreases n,
{
    if n <= 0 {
        Seq::new((sbw * sbh) as nat, |d: int| 0i32)
    } else {
        let under = placed_blocks(cbs, n - 1, sbw, sbh, nom_w, nom_h);
        Seq::new((sbw * sbh) as nat, |d: int| block_sample(cbs[n - 1], nom_w, nom_h, d % sbw, d / sbw, under[d]))
    }
}

/// The first subband from index `i` on with orientation `o`, if any.
pub open spec fn first_subband(sbs: Seq<J2kSubband>, o: SubbandOrientation, i: int) -> Option<int>
    decreases sbs.len() - i,
{
    if i < 0 || i >= sbs.len() {
        None
    } else if sbs[i].orientation == o {
        Some(i)
    } else {
        first_subband(sbs, o, i + 1)
    }
}

/// The samples of subband `o` of `res`: the code-blocks of its first subband of that
/// orientation placed in it; zeros over the whole resolution when it has none.
pub open spec fn subband_samples(res: J2kResolution, o: SubbandOrientation, nom_w: int, nom_h: int) -> Seq<i32> {
    match first_subband(res.subbands@, o, 0) {
        Some(i) => {
            let sb = res.subbands@[i];
            placed_blocks(sb.codeblocks@, sb.codeblocks@.len() as int, sb.width as int, sb.height as int, nom_w, nom_h)
        },
        None => Seq::new((res.width * res.height) as nat, |d: int| 0i32),
    }
}

/// Every size the placement of `res` allocates fits a `usize`.
pub open spec fn resolution_sizes_fit(res: J2kResolution) -> bool {
    &&& res.width * res.height <= usize::MAX
    &&& forall|k: int| 0 <= k < res.subbands@.len() ==> #[trigger] res.subbands@[k].width * res.subbands@[k].height <= usize::MAX
}

/// Position `d` of a grid of `w` by `h` lies in column `d % w` of row `d / w`.
proof fn lemma_grid_position(d: int, w: int, h: int)
    requires
        0 <= d < w * h,
        w >= 0,
        h >= 0,
    ensures
        w > 0,
        d == w * (d / w) + d % w,
        0 <= d % w < w,
        0 <= d / w < h,
{
    assert(w > 0) by (nonlinear_arith)
        requires
            0 <= d < w * h,
            w >= 0,
            h >= 0,
    ;
    vstd::arithmetic::div_mod::lemma_fundamental_div_mod(d, w);
    vstd::arithmetic::div_mod::lemma_mod_pos_bound(d, w);
    vstd::arithmetic::div_mod::lemma_div_pos_is_pos(d, w);
    assert(d / w < h) by (nonlinear_arith)
        requires
            d == w * (d / w) + d % w,
            0 <= d % w,
            d < w * h,
            w > 0,
    ;
}

/// A product of two words leaves room for another word in a double word.
proof fn lemma_u32_product(a: u32, b: u32)
    ensures
        a * b + 0xFFFF_FFFF <= u64::MAX,
{
    assert(a * b <= 0xFFFF_FFFF * 0xFFFF_FFFF) by (nonlinear_arith)
        requires
            a <= 0xFFFF_FFFF,
            b <= 0xFFFF_FFFF,
    ;
}

/// Places the coefficients of code-block `cb` into subband samples `data` of `sbw` by
/// `sbh`, over what is there.
fn place_block(data: &mut Vec<i32>, cb: &J2kCodeBlock, sbw: u32, sbh: u32, nom_w: u32, nom_h: u32)
    requires
        old(data)@.len() == sbw * sbh,
        sbw * sbh <= usize::MAX,
    ensures
        final(data)@.len() == old(data)@.len(),
        forall|d: int|
            0 <= d < old(data)@.len() ==> #[trigger] final(data)@[d] == block_sample(
                *cb,
                nom_w as int,
                nom_h as int,
                d % (sbw as int),
                d / (sbw as int),
                old(data)@[d],
            ),
{
    let ghost before = data@;
    proof {
        lemma_u32_product(cb.x, nom_w);
        lemma_u32_product(cb.y, nom_h);
    }
    let start_x: u64 = cb.x as u64 * nom_w as u64;
    let start_y: u64 = cb.y as u64 * nom_h as u64;
    let len = cb.coefficients.len();
    let cbw = cb.width as u64;
    let mut cy: u32 = 0;
    while cy < cb.height
        invariant
            data@.len() == before.len(),
            before.len() == sbw * sbh,
            sbw * sbh <= usize::MAX,
            start_x == cb.x * nom_w,
            start_y == cb.y * nom_h,
            start_x + 0xFFFF_FFFF <= u64::MAX,
            start_y + 0xFFFF_FFFF <= u64::MAX,
            len == cb.coefficients@.len(),
            cbw == cb.width,
            cy <= cb.height,
            forall|d: int|
                0 <= d < before.len() ==> #[trigger] data@[d] == if d / (sbw as int) - start_y < cy {
                    block_sample(*cb, nom_w as int, nom_h as int, d % (sbw as int), d / (sbw as int), before[d])
                } else {
                    before[d]
                },
        decreases cb.height - cy,
    {
        let mut cx: u32 = 0;
        while cx < cb.width
            invariant
                data@.len() == before.len(),
                before.len() == sbw * sbh,
                sbw * sbh <= usize::MAX,
                start_x == cb.x * nom_w,
                start_y == cb.y * nom_h,
                start_x + 0xFFFF_FFFF <= u64::MAX,
                start_y + 0xFFFF_FFFF <= u64::MAX,
                len == cb.coefficients@.len(),
                cbw == cb.width,
                cy < cb.height,
                cx <= cb.width,
                forall|d: int|
                    0 <= d < before.len() ==> #[trigger] data@[d] == if d / (sbw as int) - start_y < cy || (d / (
                    sbw as int) - start_y == cy && d % (sbw as int) - start_x < cx) {
                        block_sample(*cb, nom_w as int, nom_h as int, d % (sbw as int), d / (sbw as int), before[d])
                    } else {
                        before[d]
                    },
            decreases cb.width - cx,
        {
            proof {
                lemma_u32_product(cy, cb.width);
            }
            let src_idx: u64 = cy as u64 * cbw + cx as u64;
            let dest_x: u64 = start_x + cx as u64;
            let dest_y: u64 = start_y + cy as u64;
            proof {
                assert(cy * cb.width + cx < (cy + 1) * cb.width) by (nonlinear_arith)
                    requires
                        cx < cb.width,
                ;
                assert((cy + 1) * cb.width <= cb.height * cb.width) by (nonlinear_arith)
                    requires
                        cy < cb.height,
                ;
                assert(cb.height * cb.width <= 0xFFFF_FFFF * 0xFFFF_FFFF) by (nonlinear_arith);
            }
            if src_idx < len as u64 && dest_x < sbw as u64 && dest_y < sbh as u64 {
                proof {
                    assert(dest_y * sbw + dest_x < sbw * sbh) by (nonlinear_arith)
                        requires
                            dest_x < sbw,
                            dest_y < sbh,
                    ;
                }
                let dest: u64 = dest_y * sbw as u64 + dest_x;
                proof {
                    vstd::arithmetic::div_mod::lemma_fundamental_div_mod_converse(
                        dest as int,
                        sbw as int,
                        dest_y as int,
                        dest_x as int,
                    );
                }
                data.set(dest as usize, cb.coefficients[src_idx as usize]);
            }
            proof {
                assert forall|d: int| 0 <= d < before.len() implies #[trigger] data@[d] == if d / (sbw as int) - start_y
                    < cy || (d / (sbw as int) - start_y == cy && d % (sbw as int) - start_x < cx + 1) {
                    block_sample(*cb, nom_w as int, nom_h as int, d % (sbw as int), d / (sbw as int), before[d])
                } else {
                    before[d]
                } by {
                    lemma_grid_position(d, sbw as int, sbh as int);
                    let dx = d % (sbw as int);
                    let dy = d / (sbw as int);
                    if src_idx < len as u64 && dest_x < sbw as u64 && dest_y < sbh as u64 {
                        let dest = dest_y * sbw + dest_x;
                        lemma_grid_position(dest, sbw as int, sbh as int);
                        if dy == dest_y && dx == dest_x {
                            assert(d == dest) by (nonlinear_arith)
                                requires
                                    d == sbw * dy + dx,
                                    dest == dest_y * sbw + dest_x,
                                    dy == dest_y,
                                    dx == dest_x,
                            ;
                        }
                    }
                }
            }
            cx = cx + 1;
        }
        proof {
            assert forall|d: int| 0 <= d < before.len() implies #[trigger] data@[d] == if d / (sbw as int) - start_y
                < cy + 1 {
                block_sample(*cb, nom_w as int, nom_h as int, d % (sbw as int), d / (sbw as int), before[d])
            } else {
                before[d]
            } by {}
        }
        cy = cy + 1;
    }
}

/// `n` zeros.
pub fn zero_samples(n: usize) -> (r: Vec<i32>)
    ensures
        r@ == Seq::new(n as nat, |d: int| 0i32),
{
    let mut v: Vec<i32> = Vec::new();
    let mut i: usize = 0;
    while i < n
        invariant
            i <= n,
            v@ == Seq::new(i as nat, |d: int| 0i32),
        decreases n - i,
    {
        v.push(0);
        i = i + 1;
    }
    v
}

/// The samples of subband `orientation` of `res`, row by row: the code-blocks of its
/// first subband of that orientation placed in it (code-block `(x, y)` at
/// `(x * nom_w, y * nom_h)`, a later block over an earlier one, zero where none
/// covers); zeros over the whole resolution when it has no such subband.
pub fn subband_coefficients(res: &J2kResolution, orientation: SubbandOrientation, nom_w: u32, nom_h: u32) -> (r: Vec<
    i32,
>)
    requires
        resolution_sizes_fit(*res),
    ensures
        r@ == subband_samples(*res, orientation, nom_w as int, nom_h as int),
{
    let mut i: usize = 0;
    while i < res.subbands.len()
        invariant
            i <= res.subbands@.len(),
            resolution_sizes_fit(*res),
            first_subband(res.subbands@, orientation, i as int) == first_subband(res.subbands@, orientation, 0),
        decreases res.subbands.len() - i,
    {
        let sb = &res.subbands[i];
        if sb.orientation == orientation {
            assert(res.subbands@[i as int].width * res.subbands@[i as int].height <= usize::MAX);
            let n = sb.width as usize * sb.height as usize;
            let mut data = zero_samples(n);
            let mut k: usize = 0;
            while k < sb.codeblocks.len()
                invariant
                    k <= sb.codeblocks@.len(),
                    n == sb.width * sb.height,
                    n <= usize::MAX,
                    data@ == placed_blocks(sb.codeblocks@, k as int, sb.width as int, sb.height as int, nom_w as int, nom_h as int),
                decreases sb.codeblocks.len() - k,
            {
                let ghost under = data@;
                place_block(&mut data, &sb.codeblocks[k], sb.width, sb.height, nom_w, nom_h);
                assert(data@ =~= placed_blocks(sb.codeblocks@, k + 1, sb.width as int, sb.height as int, nom_w as int, nom_h as int));
                k = k + 1;
            }
            return data;
        }
        i = i + 1;
    }
    zero_samples(res.width as usize * res.height as usize)
}

/// The bound on the samples the inverse transform takes: `2^26`.
pub open spec fn transform_bound() -> int {
    0x400_0000
}

/// The samples of tile-component `comp` at resolution level `r`: the LL band of level 0;
/// at each level above, the inverse 5/3 transform of the samples of the level below
/// with the level's HL, LH and HH bands, over the level's size.
pub open spec fn level_samples(comp: J2kTileComponent, r: int, nom_w: int, nom_h: int) -> Seq<i32>
    decreases r,
{
    if r <= 0 {
        subband_samples(comp.resolutions@[0], SubbandOrientation::LL, nom_w, nom_h)
    } else {
        let res = comp.resolutions@[r];
        let prev = level_samples(comp, r - 1, nom_w, nom_h);
        let hl = subband_samples(res, SubbandOrientation::HL, nom_w, nom_h);
        let lh = subband_samples(res, SubbandOrientation::LH, nom_w, nom_h);
        let hh = subband_samples(res, SubbandOrientation::HH, nom_w, nom_h);
        Seq::new(
            (res.width * res.height) as nat,
            |i: int|
                inverse53_2d(prev, hl, lh, hh, res.width as nat, res.height as nat, i % (res.width as int), i / (res.width as int)) as i32,
        )
    }
}

/// Whether the sizes of the levels up to `r` fit a `usize`, and the inverse transform of
/// each level from 1 to `r` takes samples within `±2^26` only.
pub open spec fn levels_ok(comp: J2kTileComponent, r: int, nom_w: int, nom_h: int) -> bool
    decreases r,
{
    if r <= 0 {
        resolution_sizes_fit(comp.resolutions@[0])
    } else {
        let res = comp.resolutions@[r];
        &&& levels_ok(comp, r - 1, nom_w, nom_h)
        &&& resolution_sizes_fit(res)
        &&& bounded(level_samples(comp, r - 1, nom_w, nom_h), transform_bound())
        &&& bounded(subband_samples(res, SubbandOrientation::HL, nom_w, nom_h), transform_bound())
        &&& bounded(subband_samples(res, SubbandOrientation::LH, nom_w, nom_h), transform_bound())
        &&& bounded(subband_samples(res, SubbandOrientation::HH, nom_w, nom_h), transform_bound())
    }
}

/// Whether every value of `v` lies within `±b`.
pub fn samples_within(v: &Vec<i32>, b: i32) -> (r: bool)
    requires
        b >= 0,
    ensures
        r == bounded(v@, b as int),
{
    let mut i: usize = 0;
    while i < v.len()
        invariant
            b >= 0,
            i <= v@.len(),
            bounded(v@.take(i as int), b as int),
        decreases v@.len() - i,
    {
        if v[i] < -b || v[i] > b {
            assert(!bounded(v@, b as int)) by {
                assert(v@[i as int] == v@[i as int]);
            }
            return false;
        }
        assert(v@.take(i + 1) =~= v@.take(i as int).push(v@[i as int]));
        i = i + 1;
    }
    assert(v@.take(v@.len() as int) =~= v@);
    true
}

/// Whether the sizes the placement of `res` allocates fit a `usize`.
pub fn resolution_sizes_check(res: &J2kResolution) -> (r: bool)
    ensures
        r == resolution_sizes_fit(*res),
{
    if (res.width as usize).checked_mul(res.height as usize).is_none() {
        return false;
    }
    let mut k: usize = 0;
    while k < res.subbands.len()
        invariant
            k <= res.subbands@.len(),
            res.width * res.height <= usize::MAX,
            forall|j: int| 0 <= j < k ==> #[trigger] res.subbands@[j].width * res.subbands@[j].height <= usize::MAX,
        decreases res.subbands.len() - k,
    {
        if (res.subbands[k].width as usize).checked_mul(res.subbands[k].height as usize).is_none() {
            return false;
        }
        k = k + 1;
    }
    true
}

/// The samples of tile-component `comp` at its top resolution level (zeros over
/// `width` by `height` when it has no level): `None` when a size does not fit a `usize`
/// or the inverse transform of a level would take a sample beyond `±2^26`.
pub fn reconstruct_component(comp: &J2kTileComponent, width: u32, height: u32, nom_w: u32, nom_h: u32) -> (r: Option<
    Vec<i32>,
>)
    ensures
        comp.resolutions@.len() == 0 ==> (r matches Some(v) ==> v@ == Seq::new(
            (width * height) as nat,
            |d: int| 0i32,
        )) && (r is Some <==> width * height <= usize::MAX),
        comp.resolutions@.len() > 0 ==> ({
            let top = comp.resolutions@.len() - 1;
            &&& r is Some <==> levels_ok(*comp, top, nom_w as int, nom_h as int)
            &&& r matches Some(v) ==> v@ == level_samples(*comp, top, nom_w as int, nom_h as int)
        }),
{
    let n = comp.resolutions.len();
    if n == 0 {
        return match (width as usize).checked_mul(height as usize) {
            Some(total) => Some(zero_samples(total)),
            None => None,
        };
    }
    if !resolution_sizes_check(&comp.resolutions[0]) {
        proof {
            lemma_levels_ok_prefix(*comp, 0, (n - 1) as int, nom_w as int, nom_h as int);
        }
        return None;
    }
    let mut current = subband_coefficients(&comp.resolutions[0], SubbandOrientation::LL, nom_w, nom_h);
    let mut r: usize = 1;
    while r < n
        invariant
            1 <= r <= n,
            n == comp.resolutions@.len(),
            levels_ok(*comp, r - 1, nom_w as int, nom_h as int),
            current@ == level_samples(*comp, r - 1, nom_w as int, nom_h as int),
        decreases n - r,
    {
        let res = &comp.resolutions[r];
        if !resolution_sizes_check(res) {
            proof {
                assert(!levels_ok(*comp, (n - 1) as int, nom_w as int, nom_h as int)) by {
                    lemma_levels_ok_prefix(*comp, r as int, (n - 1) as int, nom_w as int, nom_h as int);
                }
            }
            return None;
        }
        let hl = subband_coefficients(res, SubbandOrientation::HL, nom_w, nom_h);
        let lh = subband_coefficients(res, SubbandOrientation::LH, nom_w, nom_h);
        let hh = subband_coefficients(res, SubbandOrientation::HH, nom_w, nom_h);
        let b: i32 = 0x400_0000;
        if !samples_within(&current, b) || !samples_within(&hl, b) || !samples_within(&lh, b) || !samples_within(&hh, b) {
            proof {
                assert(!levels_ok(*comp, (n - 1) as int, nom_w as int, nom_h as int)) by {
                    lemma_levels_ok_prefix(*comp, r as int, (n - 1) as int, nom_w as int, nom_h as int);
                }
            }
            return None;
        }
        proof {
            lemma_bounded_inverse53_2d_fits(current@, hl@, lh@, hh@, res.width as nat, res.height as nat);
        }
        let mut output = zero_samples(res.width as usize * res.height as usize);
        Dwt53::inverse_2d(&current, &hl, &lh, &hh, res.width, res.height, &mut output);
        proof {
            let want = level_samples(*comp, r as int, nom_w as int, nom_h as int);
            assert(output@.len() == want.len());
            assert forall|i: int| 0 <= i < output@.len() implies #[trigger] output@[i] == want[i] by {
                assert(output@[i] as int == inverse53_2d(
                    current@,
                    hl@,
                    lh@,
                    hh@,
                    res.width as nat,
                    res.height as nat,
                    i % (res.width as int),
                    i / (res.width as int),
                ));
            }
            assert(output@ =~= want);
        }
        current = output;
        r = r + 1;
    }
    Some(current)
}

/// A level beyond one whose checks fail fails too.
proof fn lemma_levels_ok_prefix(comp: J2kTileComponent, r: int, top: int, nom_w: int, nom_h: int)
    requires
        r <= top,
        !levels_ok(comp, r, nom_w, nom_h),
    ensures
        !levels_ok(comp, top, nom_w, nom_h),
    decreases top - r,
{
    if r < top {
        lemma_levels_ok_prefix(comp, r, top - 1, nom_w, nom_h);
    }
}

/// Whether the inverse colour transform of `(y, u, v)` stays within `i32` throughout.
pub open spec fn rct_fits(y: int, u: int, v: int) -> bool {
    let g = y - (u + v) / 4;
    &&& in_i32(u + v)
    &&& in_i32(g)
    &&& in_i32(v + g)
    &&& in_i32(u + g)
}

/// Whether three sample sequences have the same length and each triple goes through the
/// inverse colour transform within `i32`.
pub open spec fn rct_ok(c0: Seq<i32>, c1: Seq<i32>, c2: Seq<i32>) -> bool {
    &&& c1.len() == c0.len()
    &&& c2.len() == c0.len()
    &&& forall|i: int| 0 <= i < c0.len() ==> #[trigger] rct_fits(c0[i] as int, c1[i] as int, c2[i] as int)
}

/// Component `k` of the inverse colour transform of three sample sequences.
pub open spec fn rct_inverted(c0: Seq<i32>, c1: Seq<i32>, c2: Seq<i32>, k: int) -> Seq<i32> {
    Seq::new(
        c0.len(),
        |i: int|
            {
                let t = rct_inverse(c0[i] as int, c1[i] as int, c2[i] as int);
                (if k == 0 { t.0 } else if k == 1 { t.1 } else { t.2 }) as i32
            },
    )
}

/// Applies the inverse reversible colour transform to `c0` (Y), `c1` (U) and `c2` (V),
/// giving R, G and B in their place. Gives false, and leaves the samples partly
/// transformed, when the lengths differ or a value would leave `i32`.
pub fn inverse_rct(c0: &mut Vec<i32>, c1: &mut Vec<i32>, c2: &mut Vec<i32>) -> (r: bool)
    ensures
        r == rct_ok(old(c0)@, old(c1)@, old(c2)@),
        r ==> final(c0)@ == rct_inverted(old(c0)@, old(c1)@, old(c2)@, 0),
        r ==> final(c1)@ == rct_inverted(old(c0)@, old(c1)@, old(c2)@, 1),
        r ==> final(c2)@ == rct_inverted(old(c0)@, old(c1)@, old(c2)@, 2),
{
    let n = c0.len();
    if c1.len() != n || c2.len() != n {
        return false;
    }
    let ghost y0 = c0@;
    let ghost u0 = c1@;
    let ghost v0 = c2@;
    let mut i: usize = 0;
    while i < n
        invariant
            y0 == old(c0)@,
            u0 == old(c1)@,
            v0 == old(c2)@,
            n == y0.len(),
            u0.len() == n,
            v0.len() == n,
            i <= n,
            c0@.len() == n,
            c1@.len() == n,
            c2@.len() == n,
            forall|j: int| 0 <= j < i ==> #[trigger] rct_fits(y0[j] as int, u0[j] as int, v0[j] as int),
            forall|j: int| i <= j < n ==> #[trigger] c0@[j] == y0[j],
            forall|j: int| i <= j < n ==> #[trigger] c1@[j] == u0[j],
            forall|j: int| i <= j < n ==> #[trigger] c2@[j] == v0[j],
            forall|j: int| 0 <= j < i ==> #[trigger] c0@[j] == rct_inverted(y0, u0, v0, 0)[j],
            forall|j: int| 0 <= j < i ==> #[trigger] c1@[j] == rct_inverted(y0, u0, v0, 1)[j],
            forall|j: int| 0 <= j < i ==> #[trigger] c2@[j] == rct_inverted(y0, u0, v0, 2)[j],
        decreases n - i,
    {
        let y = c0[i];
        let u = c1[i];
        let v = c2[i];
        let s = match u.checked_add(v) {
            Some(s) => s,
            None => {
                assert(!rct_fits(y0[i as int] as int, u0[i as int] as int, v0[i as int] as int));
                assert(!rct_ok(y0, u0, v0));
                return false;
            },
        };
        proof {
            crate::bits::lemma_i32_halves(s);
        }
        let g = match y.checked_sub(s >> 2i32) {
            Some(g) => g,
            None => {
                assert(!rct_fits(y0[i as int] as int, u0[i as int] as int, v0[i as int] as int));
                assert(!rct_ok(y0, u0, v0));
                return false;
            },
        };
        let red = match v.checked_add(g) {
            Some(x) => x,
            None => {
                assert(!rct_fits(y0[i as int] as int, u0[i as int] as int, v0[i as int] as int));
                assert(!rct_ok(y0, u0, v0));
                return false;
            },
        };
        let blue = match u.checked_add(g) {
            Some(x) => x,
            None => {
                assert(!rct_fits(y0[i as int] as int, u0[i as int] as int, v0[i as int] as int));
                assert(!rct_ok(y0, u0, v0));
                return false;
            },
        };
        c0.set(i, red);
        c1.set(i, g);
        c2.set(i, blue);
        i = i + 1;
    }
    assert(c0@ =~= rct_inverted(y0, u0, v0, 0));
    assert(c1@ =~= rct_inverted(y0, u0, v0, 1));
    assert(c2@ =~= rct_inverted(y0, u0, v0, 2));
    true
}

/// The precision of component `c`: its depth, or 8 past the components described.
pub open spec fn sample_depth(comps: Seq<J2kComponentInfo>, c: int) -> u8 {
    if 0 <= c < comps.len() { comps[c].depth } else { 8 }
}

/// The greatest depth of the components, 8 when there is none.
pub open spec fn max_depth(comps: Seq<J2kComponentInfo>) -> u8
    decreases comps.len(),
{
    if comps.len() == 0 {
        8
    } else if comps.len() == 1 {
        comps[0].depth
    } else {
        let m = max_depth(comps.drop_last());
        if comps.last().depth > m { comps.last().depth } else { m }
    }
}

/// A sample value shifted up by `2^(depth - 1)` and clamped to `0..2^depth`.
pub open spec fn shifted_sample(v: i32, depth: u8) -> int {
    let x = v + pow2((depth - 1) as nat);
    let m = pow2(depth as nat) - 1;
    if x < 0 { 0 } else if x > m { m } else { x }
}

/// The bytes of a shifted sample: its low byte, then its high byte when samples take two.
pub open spec fn sample_bytes(v: i32, depth: u8, two: bool) -> Seq<u8> {
    let s = shifted_sample(v, depth);
    if two {
        seq![(s % 256) as u8, (s / 256 % 256) as u8]
    } else {
        seq![(s % 256) as u8]
    }
}

/// The bytes of the first `k` samples, pixel by pixel and component by component
/// within a pixel (`count` components), sample `c` of pixel `p` taken from `bufs[c][p]`.
pub open spec fn packed_samples(bufs: Seq<Seq<i32>>, comps: Seq<J2kComponentInfo>, count: int, two: bool, k: nat) -> Seq<u8>
    decreases k,
{
    if k == 0 || count <= 0 {
        Seq::empty()
    } else {
        let j = k - 1;
        let c = j % count;
        packed_samples(bufs, comps, count, two, (k - 1) as nat) + sample_bytes(bufs[c][j / count], sample_depth(comps, c), two)
    }
}

/// Whether the samples of `count` components over `pixels` pixels can be packed: the
/// output size fits a `usize`, each component has a buffer of at least `pixels` samples
/// and a depth of 1 to 30.
pub open spec fn packing_ok(bufs: Seq<Seq<i32>>, comps: Seq<J2kComponentInfo>, pixels: int, count: int) -> bool {
    &&& pixels * count * (if max_depth(comps) > 8 { 2int } else { 1int }) <= usize::MAX
    &&& count <= bufs.len()
    &&& forall|c: int| 0 <= c < count ==> #[trigger] bufs[c].len() >= pixels
    &&& forall|c: int| 0 <= c < count ==> 1 <= #[trigger] sample_depth(comps, c) <= 30
}

/// The greatest depth of the components, 8 when there is none.
fn components_max_depth(comps: &Vec<J2kComponentInfo>) -> (r: u8)
    ensures
        r == max_depth(comps@),
{
    if comps.len() == 0 {
        return 8;
    }
    let mut m = comps[0].depth;
    let mut i: usize = 1;
    while i < comps.len()
        invariant
            1 <= i <= comps@.len(),
            m == max_depth(comps@.take(i as int)),
        decreases comps@.len() - i,
    {
        assert(comps@.take(i + 1).drop_last() =~= comps@.take(i as int));
        if comps[i].depth > m {
            m = comps[i].depth;
        }
        i = i + 1;
    }
    assert(comps@.take(comps@.len() as int) =~= comps@);
    m
}

/// Packs the samples of `count` components over `width` by `height` pixels into bytes:
/// pixel by pixel, component by component, each sample shifted up by `2^(depth - 1)`,
/// clamped to its depth, in one byte, or two (low byte first) when a component is
/// deeper than 8 bits. `None` when `packing_ok` fails.
pub fn pack_samples(bufs: &Vec<Vec<i32>>, comps: &Vec<J2kComponentInfo>, width: u32, height: u32, count: u32) -> (r:
    Option<Vec<u8>>)
    ensures
        ({
            let views = Seq::new(bufs@.len(), |c: int| bufs@[c]@);
            let pixels = width * height;
            &&& r is Some <==> packing_ok(views, comps@, pixels, count as int)
            &&& r matches Some(v) ==> v@ == packed_samples(
                views,
                comps@,
                count as int,
                max_depth(comps@) > 8,
                (pixels * count) as nat,
            )
        }),
{
    let ghost views = Seq::new(bufs@.len(), |c: int| bufs@[c]@);
    let two = components_max_depth(comps) > 8;
    let bytes: usize = if two { 2 } else { 1 };
    if count == 0 {
        proof {
            assert(width * height * count * (if two { 2int } else { 1int }) == 0) by (nonlinear_arith)
                requires
                    count == 0,
            ;
        }
        return Some(Vec::new());
    }
    let pixels = match (width as usize).checked_mul(height as usize) {
        Some(p) => p,
        None => {
            proof {
                assert(width * height * count * (if two { 2int } else { 1int }) > usize::MAX) by (nonlinear_arith)
                    requires
                        width * height > usize::MAX,
                        count >= 1,
                ;
            }
            return None;
        },
    };
    let total = match pixels.checked_mul(count as usize) {
        Some(t) => match t.checked_mul(bytes) {
            Some(t2) => t2,
            None => {
                proof {
                    assert(pixels * count * (if max_depth(comps@) > 8 { 2int } else { 1int }) > usize::MAX);
                }
                return None;
            },
        },
        None => {
            proof {
                assert(pixels * count * (if two { 2int } else { 1int }) > usize::MAX) by (nonlinear_arith)
                    requires
                        pixels * count > usize::MAX,
                ;
            }
            return None;
        },
    };
    let mut c: usize = 0;
    while c < count as usize
        invariant
            views == Seq::new(bufs@.len(), |j: int| bufs@[j]@),
            c <= count,
            pixels == width * height,
            total == pixels * count * bytes,
            total <= usize::MAX,
            bytes == (if two { 2int } else { 1int }),
            two == (max_depth(comps@) > 8),
            c <= views.len(),
            forall|j: int| 0 <= j < c ==> #[trigger] views[j].len() >= pixels,
            forall|j: int| 0 <= j < c ==> 1 <= #[trigger] sample_depth(comps@, j) <= 30,
        decreases count - c,
    {
        let d: u8 = if c < comps.len() { comps[c].depth } else { 8 };
        if c >= bufs.len() || bufs[c].len() < pixels || d < 1 || d > 30 {
            proof {
                assert(sample_depth(comps@, c as int) == d);
                if c < bufs.len() {
                    assert(views[c as int].len() == bufs@[c as int]@.len());
                }
            }
            return None;
        }
        assert(views[c as int] == bufs@[c as int]@);
        c = c + 1;
    }
    assert(c == count);
    assert(pixels * count * (if max_depth(comps@) > 8 { 2int } else { 1int }) <= usize::MAX);
    assert(packing_ok(views, comps@, pixels as int, count as int));
    let mut out: Vec<u8> = Vec::new();
    let mut i: usize = 0;
    while i < pixels
        invariant
            views == Seq::new(bufs@.len(), |j: int| bufs@[j]@),
            packing_ok(views, comps@, pixels as int, count as int),
            pixels == width * height,
            i <= pixels,
            out@ == packed_samples(views, comps@, count as int, two, (i * count) as nat),
        decreases pixels - i,
    {
        let mut c: usize = 0;
        while c < count as usize
            invariant
                views == Seq::new(bufs@.len(), |j: int| bufs@[j]@),
                packing_ok(views, comps@, pixels as int, count as int),
                i < pixels,
                c <= count,
                out@ == packed_samples(views, comps@, count as int, two, (i * count + c) as nat),
            decreases count - c,
        {
            assert(views[c as int].len() >= pixels);
            assert(1 <= sample_depth(comps@, c as int) <= 30);
            let d: u8 = if c < comps.len() { comps[c].depth } else { 8 };
            let v = bufs[c][i];
            proof {
                crate::bits::lemma_one_shl_u64((d - 1) as u64);
                crate::bits::lemma_one_shl_u64(d as u64);
                crate::bits::lemma_pow2_small(d as nat);
                crate::bits::lemma_pow2_small((d - 1) as nat);
                assert(views[c as int] == bufs@[c as int]@);
            }
            let half: i64 = (1u64 << (d - 1) as u64) as i64;
            let maxv: i64 = ((1u64 << d as u64) - 1) as i64;
            let x: i64 = v as i64 + half;
            let s: i64 = if x < 0 { 0 } else if x > maxv { maxv } else { x };
            let ghost before = out@;
            out.push((s % 256) as u8);
            if two {
                out.push((s / 256 % 256) as u8);
            }
            proof {
                let k = i * count + c;
                vstd::arithmetic::div_mod::lemma_fundamental_div_mod_converse(k as int, count as int, i as int, c as int);
                assert(s == shifted_sample(views[c as int][i as int], sample_depth(comps@, c as int)));
                assert(out@ =~= before + sample_bytes(views[c as int][i as int], sample_depth(comps@, c as int), two));
                assert(packed_samples(views, comps@, count as int, two, (k + 1) as nat) == before + sample_bytes(
                    views[k % (count as int)][k / (count as int)],
                    sample_depth(comps@, k % (count as int)),
                    two,
                ));
            }
            c = c + 1;
        }
        proof {
            assert(i * count + count == (i + 1) * count) by (nonlinear_arith);
        }
        i = i + 1;
    }
    Some(out)
}

/// The samples of component `c` of the first tile at its top level (zeros over the
/// image when it has no level), code-blocks of the nominal size of the COD segment.
pub open spec fn component_samples(img: J2kImage, c: int) -> Seq<i32> {
    let comp = img.tiles@[0].components@[c];
    let cod = img.cod->Some_0;
    let nom_w = pow2((cod.codeblock_width_exp + 2) as nat) as int;
    let nom_h = pow2((cod.codeblock_height_exp + 2) as nat) as int;
    if comp.resolutions@.len() == 0 {
        Seq::new((img.width * img.height) as nat, |d: int| 0i32)
    } else {
        level_samples(comp, comp.resolutions@.len() - 1, nom_w, nom_h)
    }
}

/// Whether component `c` of the first tile can be reconstructed.
pub open spec fn component_ok(img: J2kImage, c: int) -> bool {
    let comp = img.tiles@[0].components@[c];
    let cod = img.cod->Some_0;
    let nom_w = pow2((cod.codeblock_width_exp + 2) as nat) as int;
    let nom_h = pow2((cod.codeblock_height_exp + 2) as nat) as int;
    if comp.resolutions@.len() == 0 {
        img.width * img.height <= usize::MAX
    } else {
        levels_ok(comp, comp.resolutions@.len() - 1, nom_w, nom_h)
    }
}

/// The reconstructed samples of the components of the first tile, the first three
/// through the inverse colour transform when the COD segment asks for it.
pub open spec fn reconstructed_buffers(img: J2kImage) -> Seq<Seq<i32>> {
    let n = img.tiles@[0].components@.len();
    let b = Seq::new(n, |c: int| component_samples(img, c));
    if img.cod->Some_0.mct == 1 && n >= 3 {
        b.update(0, rct_inverted(b[0], b[1], b[2], 0)).update(1, rct_inverted(b[0], b[1], b[2], 1)).update(
            2,
            rct_inverted(b[0], b[1], b[2], 2),
        )
    } else {
        b
    }
}

/// Whether a decoded image can be reconstructed: a tile, a COD segment with code-blocks
/// of at most `2^31` samples a side and the reversible transform, every component of
/// the first tile reconstructible, the colour transform within range, and the samples
/// packable.
pub open spec fn reconstruction_ok(img: J2kImage) -> bool {
    let n = img.tiles@[0].components@.len();
    let cod = img.cod->Some_0;
    let b = Seq::new(n, |c: int| component_samples(img, c));
    &&& img.tiles@.len() > 0
    &&& img.cod is Some
    &&& cod.codeblock_width_exp <= 29
    &&& cod.codeblock_height_exp <= 29
    &&& cod.transformation == 1
    &&& forall|c: int| 0 <= c < n ==> #[trigger] component_ok(img, c)
    &&& (cod.mct == 1 && n >= 3 ==> rct_ok(b[0], b[1], b[2]))
    &&& packing_ok(reconstructed_buffers(img), img.components@, img.width * img.height, img.component_count as int)
}

impl J2kImage {
    /// The pixels of a reversibly coded image, from its first tile: each component
    /// rebuilt from its code-blocks by the inverse 5/3 transform level by level, the
    /// inverse colour transform when the COD segment asks for it, then each sample
    /// shifted up by half its range, clamped to its depth and packed pixel by pixel
    /// (two bytes, low first, when a component is deeper than 8 bits). "No tiles" and
    /// "No COD" name what is missing; an irreversible transform, a code-block size
    /// exponent above 29, a coefficient beyond `±2^26` where a level's transform starts,
    /// a colour transform leaving `i32`, and samples that cannot be packed are errors too.
    pub fn reconstruct_pixels(&self) -> (r: Result<Vec<u8>, String>)
        ensures
            self.tiles@.len() == 0 ==> (r matches Err(e) && e@ == "No tiles"@),
            self.tiles@.len() > 0 && self.cod is None ==> (r matches Err(e) && e@ == "No COD"@),
            r is Ok <==> reconstruction_ok(*self),
            r matches Ok(v) ==> v@ == packed_samples(
                reconstructed_buffers(*self),
                self.components@,
                self.component_count as int,
                max_depth(self.components@) > 8,
                (self.width * self.height * self.component_count) as nat,
            ),
    {
        if self.tiles.len() == 0 {
            return Err("No tiles".to_owned());
        }
        let tile = &self.tiles[0];
        let cod = match &self.cod {
            Some(c) => c,
            None => {
                return Err("No COD".to_owned());
            },
        };
        if cod.codeblock_width_exp > 29 || cod.codeblock_height_exp > 29 {
            return Err("Code-block size not supported".to_owned());
        }
        if cod.transformation != 1 {
            return Err("Irreversible transform".to_owned());
        }
        let ew = (cod.codeblock_width_exp + 2) as u32;
        let eh = (cod.codeblock_height_exp + 2) as u32;
        proof {
            crate::bits::lemma_one_shl_u32(ew);
            crate::bits::lemma_one_shl_u32(eh);
        }
        let nom_w = 1u32 << ew;
        let nom_h = 1u32 << eh;
        let n = tile.components.len();
        let ghost b = Seq::new(n as nat, |c: int| component_samples(*self, c));
        let mut bufs: Vec<Vec<i32>> = Vec::new();
        let mut c: usize = 0;
        while c < n
            invariant
                self.tiles@.len() > 0,
                cod.codeblock_width_exp <= 29,
                cod.codeblock_height_exp <= 29,
                cod.transformation == 1,
                n == self.tiles@[0].components@.len(),
                tile == self.tiles@[0],
                self.cod == Some(*cod),
                nom_w == pow2(ew as nat),
                nom_h == pow2(eh as nat),
                ew == cod.codeblock_width_exp + 2,
                eh == cod.codeblock_height_exp + 2,
                b == Seq::new(n as nat, |j: int| component_samples(*self, j)),
                c <= n,
                bufs@.len() == c,
                forall|j: int| 0 <= j < c ==> #[trigger] component_ok(*self, j),
                forall|j: int| 0 <= j < c ==> #[trigger] bufs@[j]@ == b[j],
            decreases n - c,
        {
            match reconstruct_component(&tile.components[c], self.width, self.height, nom_w, nom_h) {
                Some(v) => {
                    bufs.push(v);
                },
                None => {
                    assert(!component_ok(*self, c as int));
                    return Err("Coefficients out of range".to_owned());
                },
            }
            c = c + 1;
        }
        let ghost full = reconstructed_buffers(*self);
        if cod.mct == 1 && n >= 3 {
            let mut c0 = bufs.remove(0);
            let mut c1 = bufs.remove(0);
            let mut c2 = bufs.remove(0);
            assert(c0@ == b[0] && c1@ == b[1] && c2@ == b[2]);
            if !inverse_rct(&mut c0, &mut c1, &mut c2) {
                return Err("Colour transform out of range".to_owned());
            }
            bufs.insert(0, c2);
            bufs.insert(0, c1);
            bufs.insert(0, c0);
        }
        let ghost views = Seq::new(bufs@.len(), |j: int| bufs@[j]@);
        assert(views =~= full);
        match pack_samples(&bufs, &self.components, self.width, self.height, self.component_count) {
            Some(v) => Ok(v),
            None => Err("Sample layout not supported".to_owned()),
        }
    }
}

} // verus!
