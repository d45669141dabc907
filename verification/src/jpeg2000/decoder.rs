//! The JPEG 2000 decoder: header parsing, tile geometry, packet reading and
//! code-block decoding.
use crate::error::JpeglsError;
use crate::jpeg2000::image::{
    J2kCod, J2kImage, J2kResolution, J2kSubband, J2kTile, J2kTileComponent, SubbandOrientation,
};
use crate::jpeg2000::bit_io::J2kBitReader;
use crate::jpeg2000::bit_plane_coder::BitPlaneCoder;
use crate::jpeg2000::image::J2kCodeBlock;
use crate::jpeg2000::packet::{grid_fits, grid_fits_check, CodeBlockInfo, PacketHeader, PrecinctState};
use crate::jpeg2000::parser::{read_room, J2kParser};
use crate::jpeg_marker_code::JpegMarkerCode;
use crate::jpeg_stream_reader::{be_u16_at, JpegStreamReader};
use crate::jpeg2000::jp2::{jp2_signature, Jp2Reader};
use vstd::arithmetic::power2::pow2;
use crate::bits::{lemma_and_bounded_u8, lemma_one_shl_u64, lemma_one_shl_usize, lemma_pow2_small, lemma_u16_top5};
use vstd::prelude::*;

verus! {

/// `ceil(a / b)`.
pub open spec fn ceil_div(a: int, b: int) -> int {
    (a + b - 1) / b
}

/// `a - b`, or 0 below it.
pub open spec fn sat_sub(a: int, b: int) -> int {
    if a > b { a - b } else { 0 }
}

/// Number of tiles across the reference grid (at least one).
pub open spec fn tiles_across(im: J2kImage) -> int {
    let n = ceil_div(sat_sub(im.width as int, im.tile_x_origin as int), im.tile_width as int);
    if n == 0 { 1 } else { n }
}

/// The horizontal extent `[x0, x1)` of tile `isot` on the reference grid (Annex B.3).
pub open spec fn tile_x_range(im: J2kImage, isot: int) -> (int, int) {
    let p = isot % tiles_across(im);
    let a = im.tile_x_origin + p * im.tile_width;
    let b = im.tile_x_origin + (p + 1) * im.tile_width;
    (if a > im.x_origin { a } else { im.x_origin as int }, if b < im.width { b } else { im.width as int })
}

/// The vertical extent `[y0, y1)` of tile `isot` on the reference grid.
pub open spec fn tile_y_range(im: J2kImage, isot: int) -> (int, int) {
    let q = isot / tiles_across(im);
    let a = im.tile_y_origin + q * im.tile_height;
    let b = im.tile_y_origin + (q + 1) * im.tile_height;
    (if a > im.y_origin { a } else { im.y_origin as int }, if b < im.height { b } else { im.height as int })
}

/// The size of an extent `[t0, t1)` of the reference grid in a component subsampled by
/// `d`, at a resolution `shift` levels below full (Annex B.5).
pub open spec fn resolution_size(t0: int, t1: int, d: int, shift: nat) -> int {
    sat_sub(ceil_div(ceil_div(t1, d), pow2(shift) as int), ceil_div(ceil_div(t0, d), pow2(shift) as int))
}

/// The subsampling of component `c`: from SIZ, or 1 without it.
pub open spec fn component_dx(im: J2kImage, c: int) -> int {
    if c < im.components@.len() { im.components@[c].dx as int } else { 1 }
}

/// The vertical subsampling of component `c`.
pub open spec fn component_dy(im: J2kImage, c: int) -> int {
    if c < im.components@.len() { im.components@[c].dy as int } else { 1 }
}

/// The orientation of subband slot `i` of a resolution.
pub open spec fn slot_orientation(i: int) -> SubbandOrientation {
    if i == 0 {
        SubbandOrientation::LL
    } else if i == 1 {
        SubbandOrientation::HL
    } else if i == 2 {
        SubbandOrientation::LH
    } else {
        SubbandOrientation::HH
    }
}

/// The size of subband slot `i` of a resolution level of size `(w, h)`: at level 0
/// only LL, as large as the level; above, the bands low-pass across (LL, LH) take the
/// larger half of the width, those low-pass down (LL, HL) the larger half of the height.
pub open spec fn slot_size(r: int, i: int, w: int, h: int) -> (int, int) {
    if r == 0 {
        if i == 0 { (w, h) } else { (0, 0) }
    } else {
        (if i == 0 || i == 2 { (w + 1) / 2 } else { w / 2 }, if i == 0 || i == 1 { (h + 1) / 2 } else { h / 2 })
    }
}

/// `ceil(x / 2^shift)`, for `x` within 32 bits.
fn ceil_shift(x: u64, shift: usize) -> (r: u64)
    requires
        x < 0x1000_0000_0000_0000,
    ensures
        r == ceil_div(x as int, pow2(shift as nat) as int),
        r <= x,
{
    proof {
        vstd::arithmetic::power2::lemma_pow2_pos(shift as nat);
    }
    if shift >= 60 {
        proof {
            vstd::arithmetic::power2::lemma2_to64();
            vstd::arithmetic::power2::lemma_pow2_adds(32, 28);
            if shift > 60 {
                vstd::arithmetic::power2::lemma_pow2_strictly_increases(60, shift as nat);
            }
            if x > 0 {
                vstd::arithmetic::div_mod::lemma_fundamental_div_mod_converse(
                    x + pow2(shift as nat) - 1,
                    pow2(shift as nat) as int,
                    1,
                    x - 1,
                );
            } else {
                vstd::arithmetic::div_mod::lemma_fundamental_div_mod_converse(
                    pow2(shift as nat) - 1,
                    pow2(shift as nat) as int,
                    0,
                    pow2(shift as nat) - 1,
                );
            }
        }
        if x > 0 { 1 } else { 0 }
    } else {
        proof {
            vstd::arithmetic::power2::lemma2_to64();
            vstd::arithmetic::power2::lemma_pow2_strictly_increases(shift as nat, 64);
            vstd::arithmetic::power2::lemma_pow2_adds(32, 28);
            vstd::arithmetic::power2::lemma_pow2_strictly_increases(shift as nat, 60);
            vstd::bits::lemma_u64_shl_is_mul(1, shift as u64);
        }
        let d: u64 = 1u64 << (shift as u64);
        proof {
            let xi = x as int;
            let di = d as int;
            if xi >= 1 {
                assert(xi + di - 1 <= di * xi) by (nonlinear_arith)
                    requires
                        xi >= 1,
                        di >= 1,
                ;
                vstd::arithmetic::div_mod::lemma_div_is_ordered(xi + di - 1, di * xi, di);
                vstd::arithmetic::div_mod::lemma_div_multiples_vanish(xi, di);
            } else {
                vstd::arithmetic::div_mod::lemma_fundamental_div_mod_converse(di - 1, di, 0, di - 1);
            }
        }
        (x + d - 1) / d
    }
}


/// `ceil(a / b)` in 64 bits.
fn ceil_div_u64(a: u64, b: u64) -> (r: u64)
    requires
        b >= 1,
        a + b <= u64::MAX,
    ensures
        r == ceil_div(a as int, b as int),
        a >= 1 ==> r <= a,
        a == 0 ==> r == 0,
{
    proof {
        let ai = a as int;
        let bi = b as int;
        if ai >= 1 {
            assert(ai + bi - 1 <= bi * ai) by (nonlinear_arith)
                requires
                    ai >= 1,
                    bi >= 1,
            ;
            vstd::arithmetic::div_mod::lemma_div_is_ordered(ai + bi - 1, bi * ai, bi);
            vstd::arithmetic::div_mod::lemma_div_multiples_vanish(ai, bi);
        } else {
            vstd::arithmetic::div_mod::lemma_fundamental_div_mod_converse(bi - 1, bi, 0, bi - 1);
        }
    }
    (a + b - 1) / b
}

/// A resolution level of size `(w, h)` at level `r`, with its four subband slots set.
pub open spec fn resolution_ok(res: J2kResolution, r: int, w: int, h: int) -> bool {
    &&& res.width == w
    &&& res.height == h
    &&& res.subbands@.len() >= 4
    &&& forall|i: int|
        0 <= i < 4 ==> (#[trigger] res.subbands@[i]).orientation == slot_orientation(i) && (
        res.subbands@[i].width as int,
        res.subbands@[i].height as int,
        ) == slot_size(r, i, w, h)
}

/// The width of resolution `r` of component `c` of tile `isot`, with `nres` levels.
pub open spec fn res_width(im: J2kImage, isot: int, c: int, r: int, nres: int) -> int {
    let (x0, x1) = tile_x_range(im, isot);
    resolution_size(x0, x1, component_dx(im, c), (nres - 1 - r) as nat)
}

/// The height of resolution `r` of component `c` of tile `isot`, with `nres` levels.
pub open spec fn res_height(im: J2kImage, isot: int, c: int, r: int, nres: int) -> int {
    let (y0, y1) = tile_y_range(im, isot);
    resolution_size(y0, y1, component_dy(im, c), (nres - 1 - r) as nat)
}

/// Component `c` of tile `isot` has its `nres` resolution levels sized.
pub open spec fn component_ok(comp: J2kTileComponent, im: J2kImage, isot: int, c: int, nres: int) -> bool {
    &&& comp.resolutions@.len() >= nres
    &&& forall|r: int|
        0 <= r < nres ==> resolution_ok(
            #[trigger] comp.resolutions@[r],
            r,
            res_width(im, isot, c, r, nres),
            res_height(im, isot, c, r, nres),
        )
}

/// The tile geometry can be computed: a coding style, non-zero tile sizes, non-zero
/// subsampling.
pub open spec fn geometry_defined(im: J2kImage) -> bool {
    &&& im.cod is Some
    &&& im.tile_width > 0
    &&& im.tile_height > 0
    &&& forall|c: int|
        0 <= c < im.components@.len() ==> (#[trigger] im.components@[c]).dx > 0 && im.components@[c].dy > 0
}

fn check_geometry(im: &J2kImage) -> (r: bool)
    ensures
        r == geometry_defined(*im),
{
    if im.cod.is_none() || im.tile_width == 0 || im.tile_height == 0 {
        return false;
    }
    let mut c: usize = 0;
    while c < im.components.len()
        invariant
            c <= im.components@.len(),
            forall|k: int| 0 <= k < c ==> (#[trigger] im.components@[k]).dx > 0 && im.components@[k].dy > 0,
        decreases im.components@.len() - c,
    {
        if im.components[c].dx == 0 || im.components[c].dy == 0 {
            return false;
        }
        c = c + 1;
    }
    true
}

/// Sizes one resolution level and its four subband slots.
fn set_resolution(res: &mut J2kResolution, r: usize, w: u32, h: u32)
    ensures
        resolution_ok(*final(res), r as int, w as int, h as int),
        final(res).level == old(res).level,
        final(res).subbands@.len() == if old(res).subbands@.len() < 4 { 4 } else { old(res).subbands@.len() as int },
{
    res.width = w;
    res.height = h;
    while res.subbands.len() < 4
        invariant
            res.width == w,
            res.height == h,
            res.level == old(res).level,
            old(res).subbands@.len() <= res.subbands@.len() <= if old(res).subbands@.len() < 4 {
                4
            } else {
                old(res).subbands@.len() as int
            },
        decreases 4 - res.subbands@.len(),
    {
        res.subbands.push(J2kSubband { orientation: SubbandOrientation::LL, width: 0, height: 0, codeblocks: Vec::new() });
    }
    let wide_w: u32 = ((w as u64 + 1) / 2) as u32;
    let wide_h: u32 = ((h as u64 + 1) / 2) as u32;
    let mut i: usize = 0;
    while i < 4
        invariant
            i <= 4,
            res.width == w,
            res.height == h,
            res.level == old(res).level,
            wide_w == (w + 1) / 2,
            wide_h == (h + 1) / 2,
            res.subbands@.len() == if old(res).subbands@.len() < 4 { 4 } else { old(res).subbands@.len() as int },
            forall|k: int|
                0 <= k < i ==> (#[trigger] res.subbands@[k]).orientation == slot_orientation(k) && (
                res.subbands@[k].width as int,
                res.subbands@[k].height as int,
                ) == slot_size(r as int, k, w as int, h as int),
        decreases 4 - i,
    {
        let mut sb = res.subbands.remove(i);
        sb.orientation = if i == 0 {
            SubbandOrientation::LL
        } else if i == 1 {
            SubbandOrientation::HL
        } else if i == 2 {
            SubbandOrientation::LH
        } else {
            SubbandOrientation::HH
        };
        if r == 0 {
            if i == 0 {
                sb.width = w;
                sb.height = h;
            } else {
                sb.width = 0;
                sb.height = 0;
            }
        } else {
            sb.width = if i == 0 || i == 2 { wide_w } else { w / 2 };
            sb.height = if i == 0 || i == 1 { wide_h } else { h / 2 };
        }
        let ghost before = res.subbands@;
        res.subbands.insert(i, sb);
        i = i + 1;
    }
}

/// Makes tile `isot` (with its index) if there is none yet, and gives each component
/// its resolution levels, sized from the tile's extent, the component's subsampling and
/// the number of decomposition levels, with their subband slots.
fn init_tile_geometry(parser: &mut J2kParser, isot: u16) -> (r: Result<(), JpeglsError>)
    ensures
        *final(parser).reader == *old(parser).reader,
        same_header(*final(parser).image, *old(parser).image),
        r is Ok <==> geometry_defined(*old(parser).image),
        r is Err ==> r == Err::<(), JpeglsError>(JpeglsError::InvalidData) && *final(parser).image == *old(parser).image,
        r is Ok ==> {
            let im = *old(parser).image;
            let nres = im.cod->Some_0.decomposition_levels + 1;
            let tile = final(parser).image.tiles@[isot as int];
            &&& final(parser).image.tiles@.len() > isot
            &&& final(parser).image.tiles@.len() >= old(parser).image.tiles@.len()
            &&& tile.components@.len() >= im.component_count
            &&& forall|c: int|
                0 <= c < im.component_count ==> component_ok(#[trigger] tile.components@[c], im, isot as int, c, nres)
        },
        r is Ok && fresh_tile(*old(parser).image, isot as int) ==> {
            let im = *old(parser).image;
            let tile = final(parser).image.tiles@[isot as int];
            &&& tile.components@.len() == im.component_count
            &&& forall|c: int|
                0 <= c < im.component_count ==> (#[trigger] tile.components@[c]).resolutions@.len()
                    == im.cod->Some_0.decomposition_levels + 1
        },
{
    if !check_geometry(&parser.image) {
        return Err(JpeglsError::InvalidData);
    }
    let ghost im = *parser.image;
    let ghost fresh = fresh_tile(im, isot as int);
    let tile_idx = isot as usize;
    if parser.image.tiles.len() <= tile_idx {
        while parser.image.tiles.len() <= tile_idx
            invariant
                *parser.reader == *old(parser).reader,
                same_header(*parser.image, im),
                parser.image.tiles@.len() >= im.tiles@.len(),
                forall|k: int|
                    im.tiles@.len() <= k < parser.image.tiles@.len() ==> (#[trigger] parser.image.tiles@[k]).components@.len()
                        == 0,
            decreases tile_idx + 1 - parser.image.tiles@.len(),
        {
            parser.image.tiles.push(J2kTile { index: 0, components: Vec::new() });
        }
        let mut t = parser.image.tiles.remove(tile_idx);
        t.index = isot as u32;
        parser.image.tiles.insert(tile_idx, t);
    }
    assert(fresh ==> parser.image.tiles@[tile_idx as int].components@.len() == 0);
    let levels = match &parser.image.cod {
        Some(c) => c.decomposition_levels,
        None => 0,
    };
    let num_resolutions: usize = levels as usize + 1;
    let num_components: usize = parser.image.component_count as usize;
    let x_siz = parser.image.width as u64;
    let y_siz = parser.image.height as u64;
    let x_osiz = parser.image.x_origin as u64;
    let y_osiz = parser.image.y_origin as u64;
    let x_tsiz = parser.image.tile_width as u64;
    let y_tsiz = parser.image.tile_height as u64;
    let x_tosiz = parser.image.tile_x_origin as u64;
    let y_tosiz = parser.image.tile_y_origin as u64;
    let span = if x_siz > x_tosiz { x_siz - x_tosiz } else { 0 };
    let across = ceil_div_u64(span, x_tsiz);
    let num_tiles_x = if across == 0 { 1 } else { across };
    let p = isot as u64 % num_tiles_x;
    let q = isot as u64 / num_tiles_x;
    assert(q <= isot) by {
        vstd::arithmetic::div_mod::lemma_div_is_ordered_by_denominator(isot as int, 1, num_tiles_x as int);
    }
    proof {
        vstd::arithmetic::div_mod::lemma_fundamental_div_mod((span + x_tsiz - 1) as int, x_tsiz as int);
        assert(num_tiles_x * x_tsiz <= span + x_tsiz) by (nonlinear_arith)
            requires
                num_tiles_x == 1 || num_tiles_x == (span + x_tsiz - 1) / (x_tsiz as int),
                (span + x_tsiz - 1) == (x_tsiz as int) * ((span + x_tsiz - 1) / (x_tsiz as int)) + (span + x_tsiz
                    - 1) % (x_tsiz as int),
                (span + x_tsiz - 1) % (x_tsiz as int) >= 0,
                x_tsiz >= 1,
        ;
        assert((p + 1) * x_tsiz <= num_tiles_x * x_tsiz) by (nonlinear_arith)
            requires
                p < num_tiles_x,
                x_tsiz >= 1,
        ;
        assert(p * x_tsiz <= (p + 1) * x_tsiz) by (nonlinear_arith)
            requires
                x_tsiz >= 1,
        ;
        assert(q * y_tsiz <= (q + 1) * y_tsiz) by (nonlinear_arith)
            requires
                y_tsiz >= 1,
        ;
        assert((q + 1) * y_tsiz <= 0x1_0000 * 0x1_0000_0000) by (nonlinear_arith)
            requires
                q <= 0xFFFF,
                y_tsiz <= 0xFFFF_FFFF,
        ;
    }
    let ax = x_tosiz + p * x_tsiz;
    let tx0 = if ax > x_osiz { ax } else { x_osiz };
    let bx = x_tosiz + (p + 1) * x_tsiz;
    let tx1 = if bx < x_siz { bx } else { x_siz };
    let ay = y_tosiz + q * y_tsiz;
    let ty0 = if ay > y_osiz { ay } else { y_osiz };
    let by = y_tosiz + (q + 1) * y_tsiz;
    let ty1 = if by < y_siz { by } else { y_siz };
    let ghost nres = num_resolutions as int;
    proof {
        assert(tiles_across(im) == num_tiles_x);
        assert(tile_x_range(im, isot as int) == (tx0 as int, tx1 as int));
        assert(tile_y_range(im, isot as int) == (ty0 as int, ty1 as int));
        assert(nres == im.cod->Some_0.decomposition_levels + 1);
    }
    let mut tile = parser.image.tiles.remove(tile_idx);
    while tile.components.len() < num_components
        invariant
            tile.components@.len() <= if tile.components@.len() < num_components { num_components as int } else { tile.components@.len() as int },
            fresh ==> tile.components@.len() <= num_components,
            fresh ==> forall|k: int| 0 <= k < tile.components@.len() ==> (#[trigger] tile.components@[k]).resolutions@.len() == 0,
        decreases num_components - tile.components@.len(),
    {
        tile.components.push(J2kTileComponent { component_index: 0, resolutions: Vec::new() });
    }
    let mut c: usize = 0;
    while c < num_components
        invariant
            same_header(*parser.image, im),
            *parser.reader == *old(parser).reader,
            geometry_defined(im),
            num_components == im.component_count,
            nres == num_resolutions,
            nres == im.cod->Some_0.decomposition_levels + 1,
            tile_x_range(im, isot as int) == (tx0 as int, tx1 as int),
            tile_y_range(im, isot as int) == (ty0 as int, ty1 as int),
            tx1 <= u32::MAX,
            ty1 <= u32::MAX,
            tx0 < 0x4_0000_0000_0000,
            ty0 < 0x4_0000_0000_0000,
            c <= num_components,
            tile.components@.len() >= num_components,
            forall|k: int| 0 <= k < c ==> component_ok(#[trigger] tile.components@[k], im, isot as int, k, nres),
            fresh ==> tile.components@.len() == num_components,
            fresh ==> forall|k: int| 0 <= k < c ==> (#[trigger] tile.components@[k]).resolutions@.len() == nres,
            fresh ==> forall|k: int| c <= k < num_components ==> (#[trigger] tile.components@[k]).resolutions@.len() == 0,
        decreases num_components - c,
    {
        let (dx, dy): (u64, u64) = if c < parser.image.components.len() {
            (parser.image.components[c].dx as u64, parser.image.components[c].dy as u64)
        } else {
            (1, 1)
        };
        proof {
            if c < im.components@.len() {
                assert(im.components@[c as int].dx > 0 && im.components@[c as int].dy > 0);
            }
        }
        let tcx0 = ceil_div_u64(tx0, dx);
        let tcx1 = ceil_div_u64(tx1, dx);
        let tcy0 = ceil_div_u64(ty0, dy);
        let tcy1 = ceil_div_u64(ty1, dy);
        let mut comp = tile.components.remove(c);
        let ghost rl0 = comp.resolutions@.len();
        while comp.resolutions.len() < num_resolutions
            invariant
                rl0 == 0 ==> comp.resolutions@.len() <= num_resolutions,
            decreases num_resolutions - comp.resolutions@.len(),
        {
            comp.resolutions.push(J2kResolution { level: 0, width: 0, height: 0, subbands: Vec::new() });
        }
        let ghost rl1 = comp.resolutions@.len();
        assert(fresh ==> rl1 == nres);
        let mut r: usize = 0;
        while r < num_resolutions
            invariant
                nres == num_resolutions,
                num_resolutions >= 1,
                r <= num_resolutions,
                comp.resolutions@.len() >= num_resolutions,
                comp.resolutions@.len() == rl1,
                tcx1 <= u32::MAX,
                tcy1 <= u32::MAX,
                tcx0 < 0x4_0000_0000_0000,
                tcy0 < 0x4_0000_0000_0000,
                tcx0 == ceil_div(tile_x_range(im, isot as int).0, component_dx(im, c as int)),
                tcx1 == ceil_div(tile_x_range(im, isot as int).1, component_dx(im, c as int)),
                tcy0 == ceil_div(tile_y_range(im, isot as int).0, component_dy(im, c as int)),
                tcy1 == ceil_div(tile_y_range(im, isot as int).1, component_dy(im, c as int)),
                forall|k: int|
                    0 <= k < r ==> resolution_ok(
                        #[trigger] comp.resolutions@[k],
                        k,
                        res_width(im, isot as int, c as int, k, nres),
                        res_height(im, isot as int, c as int, k, nres),
                    ),
            decreases num_resolutions - r,
        {
            let shift = num_resolutions - 1 - r;
            let trx0 = ceil_shift(tcx0, shift);
            let trx1 = ceil_shift(tcx1, shift);
            let try0 = ceil_shift(tcy0, shift);
            let try1 = ceil_shift(tcy1, shift);
            let res_w: u64 = if trx1 > trx0 { trx1 - trx0 } else { 0 };
            let res_h: u64 = if try1 > try0 { try1 - try0 } else { 0 };
            let mut res = comp.resolutions.remove(r);
            set_resolution(&mut res, r, res_w as u32, res_h as u32);
            comp.resolutions.insert(r, res);
            r = r + 1;
        }
        tile.components.insert(c, comp);
        c = c + 1;
    }
    parser.image.tiles.insert(tile_idx, tile);
    Ok(())
}

/// Tile `isot` of `im` is new: it does not exist yet, or has no component.
pub open spec fn fresh_tile(im: J2kImage, isot: int) -> bool {
    isot >= im.tiles@.len() || im.tiles@[isot].components@.len() == 0
}

/// All header fields of `a` and `b` agree; the tiles may differ.
pub open spec fn same_header(a: J2kImage, b: J2kImage) -> bool {
    &&& a.width == b.width
    &&& a.height == b.height
    &&& a.x_origin == b.x_origin
    &&& a.y_origin == b.y_origin
    &&& a.tile_width == b.tile_width
    &&& a.tile_height == b.tile_height
    &&& a.tile_x_origin == b.tile_x_origin
    &&& a.tile_y_origin == b.tile_y_origin
    &&& a.component_count == b.component_count
    &&& a.cod == b.cod
    &&& a.qcd == b.qcd
    &&& a.cap == b.cap
    &&& a.roi == b.roi
    &&& a.icc_profile == b.icc_profile
    &&& a.components@ == b.components@
}


/// Component `c` of tile `isot` has its `nres` resolution levels of the sizes of Annex B.
pub open spec fn component_sized(comp: J2kTileComponent, im: J2kImage, isot: int, c: int, nres: int) -> bool {
    &&& comp.resolutions@.len() >= nres
    &&& forall|r: int|
        0 <= r < nres ==> (#[trigger] comp.resolutions@[r]).width == res_width(im, isot, c, r, nres)
            && comp.resolutions@[r].height == res_height(im, isot, c, r, nres)
}

/// `b` has at least the levels of `a`, of the same sizes.
pub open spec fn component_sizes_kept(a: J2kTileComponent, b: J2kTileComponent) -> bool {
    &&& b.resolutions@.len() >= a.resolutions@.len()
    &&& forall|r: int|
        0 <= r < a.resolutions@.len() ==> (#[trigger] b.resolutions@[r]).width == a.resolutions@[r].width
            && b.resolutions@[r].height == a.resolutions@[r].height
}

/// `b` has at least the components of `a`, each keeping its level sizes.
pub open spec fn tile_sizes_kept(a: J2kTile, b: J2kTile) -> bool {
    &&& b.components@.len() >= a.components@.len()
    &&& forall|c: int|
        0 <= c < a.components@.len() ==> component_sizes_kept(a.components@[c], #[trigger] b.components@[c])
}

/// `b` has the tiles of `a`, each keeping its components' level sizes.
pub open spec fn sizes_kept(a: J2kImage, b: J2kImage) -> bool {
    &&& b.tiles@.len() == a.tiles@.len()
    &&& forall|t: int| 0 <= t < a.tiles@.len() ==> tile_sizes_kept(a.tiles@[t], #[trigger] b.tiles@[t])
}

proof fn lemma_sizes_kept_trans(a: J2kImage, b: J2kImage, c: J2kImage)
    requires
        sizes_kept(a, b),
        sizes_kept(b, c),
    ensures
        sizes_kept(a, c),
{
    assert forall|t: int| 0 <= t < a.tiles@.len() implies tile_sizes_kept(a.tiles@[t], #[trigger] c.tiles@[t]) by {
        let ta = a.tiles@[t];
        let tb = b.tiles@[t];
        let tc = c.tiles@[t];
        assert(tile_sizes_kept(ta, tb));
        assert(tile_sizes_kept(tb, tc));
        assert forall|k: int| 0 <= k < ta.components@.len() implies component_sizes_kept(
            ta.components@[k],
            #[trigger] tc.components@[k],
        ) by {
            assert(component_sizes_kept(ta.components@[k], tb.components@[k]));
            assert(component_sizes_kept(tb.components@[k], tc.components@[k]));
        }
    }
}

/// Tiles `a` and `b` have as many components, each with as many levels.
pub open spec fn tile_shape_same(a: J2kTile, b: J2kTile) -> bool {
    &&& b.components@.len() == a.components@.len()
    &&& forall|c: int|
        0 <= c < a.components@.len() ==> (#[trigger] b.components@[c]).resolutions@.len()
            == a.components@[c].resolutions@.len()
}

/// Tile `t` has level `res` of component `comp`.
pub open spec fn has_level(t: J2kTile, comp: int, res: int) -> bool {
    &&& 0 <= comp < t.components@.len()
    &&& 0 <= res < t.components@[comp].resolutions@.len()
}

/// Tile `t` has at least `count` components, each with at least `nres` levels.
pub open spec fn tile_fits(t: J2kTile, count: int, nres: int) -> bool {
    &&& t.components@.len() >= count
    &&& forall|c: int| 0 <= c < count ==> (#[trigger] t.components@[c]).resolutions@.len() >= nres
}

/// From `a` to `b` only tile `isot` changed, and when it has level `res` of component
/// `comp` its shape is kept.
pub open spec fn shape_kept_at(a: J2kImage, b: J2kImage, isot: int, comp: int, res: int) -> bool {
    &&& forall|t: int| 0 <= t < a.tiles@.len() && t != isot ==> #[trigger] b.tiles@[t] == a.tiles@[t]
    &&& has_level(a.tiles@[isot], comp, res) ==> tile_shape_same(a.tiles@[isot], b.tiles@[isot])
}

proof fn lemma_shape_kept_refl(a: J2kImage, isot: int, comp: int, res: int)
    ensures
        shape_kept_at(a, a, isot, comp, res),
{
}

proof fn lemma_shape_kept_trans(a: J2kImage, b: J2kImage, c: J2kImage, isot: int, comp: int, res: int)
    requires
        shape_kept_at(a, b, isot, comp, res),
        shape_kept_at(b, c, isot, comp, res),
        b.tiles@.len() == a.tiles@.len(),
    ensures
        shape_kept_at(a, c, isot, comp, res),
{
    if has_level(a.tiles@[isot], comp, res) {
        assert(b.tiles@[isot].components@[comp].resolutions@.len() == a.tiles@[isot].components@[comp].resolutions@.len());
        assert(has_level(b.tiles@[isot], comp, res));
    }
}

/// The tile that packets go to: the last one, its index taken on 16 bits.
pub open spec fn packet_tile_index(num_tiles: int) -> int {
    let last = num_tiles - 1;
    if last > 0xFFFF { last % 0x10000 } else { last }
}

/// One step of packet reading (level `r` of component `c`, within the `count` and `nres`
/// that the tile was made for) keeps the other tiles and the shape of tile `w`.
proof fn lemma_packets_step(im0: J2kImage, a: J2kImage, b: J2kImage, w: int, c: int, r: int, count: int, nres: int)
    requires
        0 <= w < im0.tiles@.len(),
        a.tiles@.len() == im0.tiles@.len(),
        b.tiles@.len() == a.tiles@.len(),
        forall|t: int| 0 <= t < im0.tiles@.len() && t != w ==> #[trigger] a.tiles@[t] == im0.tiles@[t],
        tile_fits(im0.tiles@[w], count, nres) ==> tile_shape_same(im0.tiles@[w], a.tiles@[w]),
        shape_kept_at(a, b, w, c, r),
        0 <= c < count,
        0 <= r < nres,
    ensures
        forall|t: int| 0 <= t < im0.tiles@.len() && t != w ==> #[trigger] b.tiles@[t] == im0.tiles@[t],
        tile_fits(im0.tiles@[w], count, nres) ==> tile_shape_same(im0.tiles@[w], b.tiles@[w]),
{
    assert forall|t: int| 0 <= t < im0.tiles@.len() && t != w implies #[trigger] b.tiles@[t] == im0.tiles@[t] by {
        assert(b.tiles@[t] == a.tiles@[t]);
    }
    if tile_fits(im0.tiles@[w], count, nres) {
        assert(im0.tiles@[w].components@[c].resolutions@.len() >= nres);
        assert(has_level(a.tiles@[w], c, r));
    }
}

proof fn lemma_sizes_kept_refl(a: J2kImage)
    ensures
        sizes_kept(a, a),
{
}

/// A component with sized levels keeps them under `component_sizes_kept`.
proof fn lemma_component_sized_kept(a: J2kTileComponent, b: J2kTileComponent, im: J2kImage, isot: int, c: int, nres: int)
    requires
        component_sized(a, im, isot, c, nres),
        component_sizes_kept(a, b),
    ensures
        component_sized(b, im, isot, c, nres),
{
    assert forall|r: int| 0 <= r < nres implies (#[trigger] b.resolutions@[r]).width == res_width(im, isot, c, r, nres)
        && b.resolutions@[r].height == res_height(im, isot, c, r, nres) by {
        assert(a.resolutions@[r].width == res_width(im, isot, c, r, nres));
    }
}

/// The reader is well formed and reads the data of `r0` with the same tables, not
/// behind it; the image has the header of `im0`, as many tiles, and the same level sizes.
pub open spec fn reading_ok<'a>(rd: JpegStreamReader<'a>, im: J2kImage, r0: JpegStreamReader<'a>, im0: J2kImage) -> bool {
    &&& rd.wf()
    &&& rd.same_but_pos(&r0)
    &&& r0.pos() <= rd.pos()
    &&& same_header(im, im0)
    &&& im.tiles@.len() == im0.tiles@.len()
    &&& sizes_kept(im0, im)
}

/// Where the byte scan from `p` finds the next SOT (`true`) or EOC (`false`) marker, and
/// the position just after it: each `0xFF` is taken with the byte after it.
pub open spec fn marker_scan(d: Seq<u8>, p: int) -> Option<(bool, int)>
    decreases d.len() - p,
{
    if p < 0 || p >= d.len() {
        None
    } else if d[p] == 0xFF {
        if p + 1 >= d.len() {
            None
        } else if d[p + 1] == 0x90 {
            Some((true, p + 2))
        } else if d[p + 1] == 0xD9 {
            Some((false, p + 2))
        } else {
            marker_scan(d, p + 2)
        }
    } else {
        marker_scan(d, p + 1)
    }
}

/// A scan that finds a marker ends past where it started.
proof fn lemma_marker_scan_moves(d: Seq<u8>, p: int)
    requires
        marker_scan(d, p) is Some,
    ensures
        p + 2 <= marker_scan(d, p)->Some_0.1 <= d.len(),
    decreases d.len() - p,
{
    if d[p] == 0xFF {
        if d[p + 1] != 0x90 && d[p + 1] != 0xD9 {
            lemma_marker_scan_moves(d, p + 2);
        }
    } else {
        lemma_marker_scan_moves(d, p + 1);
    }
}

/// The JPEG 2000 decoder: reads the headers, then the packets of each tile, and
/// decodes their code-blocks.
pub struct J2kDecoder<'a, 'b> {
    /// The codestream parser, holding the image read so far.
    pub parser: J2kParser<'a, 'b>,
    /// Packet decoding state of each tile.
    pub tile_states: Vec<TileState>,
}

/// The packet decoding state of one resolution level of a tile component.
pub struct ResolutionState {
    /// Width of the level.
    pub width: u32,
    /// Height of the level.
    pub height: u32,
    /// The state of each precinct met so far, by precinct column and row.
    pub precincts: Vec<((u32, u32), PrecinctState)>,
}

impl ResolutionState {
    /// Every precinct state is well formed.
    pub open spec fn wf(&self) -> bool {
        forall|i: int| 0 <= i < self.precincts@.len() ==> (#[trigger] self.precincts@[i]).1.wf()
    }

    /// A level of size `(w, h)` with no precinct met yet.
    pub fn new(w: u32, h: u32) -> (r: Self)
        ensures
            r.wf(),
            r.width == w,
            r.height == h,
            r.precincts@.len() == 0,
    {
        Self { width: w, height: h, precincts: Vec::new() }
    }
}

/// The packet decoding state of one tile component.
pub struct ComponentState {
    /// Its resolution levels.
    pub resolutions: Vec<ResolutionState>,
}

impl ComponentState {
    /// Every level's state is well formed.
    pub open spec fn wf(&self) -> bool {
        forall|i: int| 0 <= i < self.resolutions@.len() ==> (#[trigger] self.resolutions@[i]).wf()
    }
}

/// The packet decoding state of one tile.
pub struct TileState {
    /// Its components.
    pub components: Vec<ComponentState>,
}

impl TileState {
    /// Every component's state is well formed.
    pub open spec fn wf(&self) -> bool {
        forall|i: int| 0 <= i < self.components@.len() ==> (#[trigger] self.components@[i]).wf()
    }
}

/// Every tile state is well formed.
pub open spec fn tile_states_wf(t: Seq<TileState>) -> bool {
    forall|i: int| 0 <= i < t.len() ==> (#[trigger] t[i]).wf()
}

/// The orientation number the bit-plane coder takes for subband `idx` at level `res`:
/// 0 for LL, then 1, 2, 3 for the three subbands above level 0.
pub open spec fn band_orientation(res: int, idx: int) -> int {
    if res == 0 { 0 } else { idx + 1 }
}

/// The position of the block at `(x, y)` among `blocks`, if any.
fn find_codeblock(blocks: &Vec<J2kCodeBlock>, x: u32, y: u32) -> (r: Option<usize>)
    ensures
        r matches Some(i) ==> i < blocks@.len() && blocks@[i as int].x == x && blocks@[i as int].y == y,
        r matches Some(i) ==> forall|j: int| 0 <= j < i ==> !(#[trigger] blocks@[j].x == x && blocks@[j].y == y),
        r is None ==> forall|j: int| 0 <= j < blocks@.len() ==> !(#[trigger] blocks@[j].x == x && blocks@[j].y == y),
{
    let mut i: usize = 0;
    while i < blocks.len()
        invariant
            i <= blocks@.len(),
            forall|j: int| 0 <= j < i ==> !(#[trigger] blocks@[j].x == x && blocks@[j].y == y),
        decreases blocks@.len() - i,
    {
        if blocks[i].x == x && blocks[i].y == y {
            return Some(i);
        }
        i = i + 1;
    }
    None
}

/// A bit-plane coder for a `w` by `h` block can be made.
fn block_fits(w: u32, h: u32) -> (r: bool)
    ensures
        r <==> w * h <= u32::MAX && h <= u32::MAX - 4 && (h + 2) * (w + 2) <= usize::MAX,
{
    let w64 = w as u64;
    let h64 = h as u64;
    assert(w64 * h64 <= 0xFFFF_FFFF_FFFF_FFFF) by (nonlinear_arith)
        requires
            w64 <= 0xFFFF_FFFF,
            h64 <= 0xFFFF_FFFF,
    ;
    let wh: u64 = w64 * h64;
    if wh > u32::MAX as u64 || h > u32::MAX - 4 {
        return false;
    }
    let w2 = w as u128 + 2;
    let h2 = h as u128 + 2;
    assert(h2 * w2 <= 0xFFFF_FFFF_FFFF_FFFF_FFFF) by (nonlinear_arith)
        requires
            w2 <= 0x1_0000_0001,
            h2 <= 0x1_0000_0001,
    ;
    let padded: u128 = h2 * w2;
    if padded > usize::MAX as u128 {
        return false;
    }
    true
}

/// Decodes the bit-planes of one code-block's data, updating `block`.
fn decode_block_data(block: &mut J2kCodeBlock, data: &Vec<u8>, max_bit_plane: u8, num_passes: u8, orient: u8)
    requires
        max_bit_plane <= 29,
        data@.len() + 2 <= usize::MAX,
    ensures
        final(block).x == old(block).x && final(block).y == old(block).y,
        final(block).width == old(block).width && final(block).height == old(block).height,
        final(block).layer_data@ == old(block).layer_data@,
        final(block).layers_decoded == old(block).layers_decoded,
        !(old(block).width * old(block).height <= u32::MAX && old(block).height <= u32::MAX - 4 && (old(block).height
            + 2) * (old(block).width + 2) <= usize::MAX) ==> *final(block) == *old(block),
        old(block).width * old(block).height <= u32::MAX && old(block).height <= u32::MAX - 4 && (old(block).height + 2)
            * (old(block).width + 2) <= usize::MAX ==> {
            &&& final(block).coefficients@.len() == old(block).width * old(block).height
            &&& final(block).coding_passes == old(block).coding_passes
            &&& forall|i: int|
                0 <= i < final(block).coefficients@.len() ==> -(pow2((max_bit_plane + 1) as nat) + num_passes)
                    <= #[trigger] final(block).coefficients@[i] <= pow2((max_bit_plane + 1) as nat) + num_passes
            &&& num_passes == 0 ==> forall|i: int|
                0 <= i < final(block).coefficients@.len() ==> #[trigger] final(block).coefficients@[i] == 0
        },
{
    if !block_fits(block.width, block.height) {
        return;
    }
    let mut bpc = BitPlaneCoder::new(block.width, block.height, &[]);
    let n = (block.width * block.height) as usize;
    if block.coefficients.len() == n && block.state.len() == n {
        bpc.coefficients = block.coefficients.clone();
        bpc.state = block.state.clone();
    }
    bpc.num_passes_decoded = block.coding_passes as u32;
    let _ = bpc.decode_codeblock(data.as_slice(), max_bit_plane, num_passes, orient);
    block.coefficients = bpc.coefficients;
    block.state = bpc.state;
    block.coding_passes = bpc.num_passes_decoded as u8;
}


/// The size of subband slot `idx` of a level of size `(res_w, res_h)`, as the packet
/// body reads it: at level 0 the whole level; above, HL, LH and HH.
/// The size of subband slot `idx` of a level of size `(res_w, res_h)`: the whole level
/// at level 0; above it HL, LH and HH, the low halves rounded up; `(0, 0)` past them.
pub open spec fn subband_slot_size(res: int, idx: int, res_w: int, res_h: int) -> (int, int) {
    let ll_w = res_w / 2 + res_w % 2;
    let ll_h = res_h / 2 + res_h % 2;
    if res == 0 {
        (res_w, res_h)
    } else if idx == 0 {
        (res_w - ll_w, ll_h)
    } else if idx == 1 {
        (ll_w, res_h - ll_h)
    } else if idx == 2 {
        (res_w - ll_w, res_h - ll_h)
    } else {
        (0, 0)
    }
}

fn subband_size(res: usize, idx: usize, res_w: usize, res_h: usize) -> (r: (usize, usize))
    requires
        res_w <= u32::MAX,
        res_h <= u32::MAX,
    ensures
        (r.0 as int, r.1 as int) == subband_slot_size(res as int, idx as int, res_w as int, res_h as int),
{
    if res == 0 {
        (res_w, res_h)
    } else {
        let ll_w = res_w / 2 + res_w % 2;
        let ll_h = res_h / 2 + res_h % 2;
        if idx == 0 {
            (res_w - ll_w, ll_h)
        } else if idx == 1 {
            (ll_w, res_h - ll_h)
        } else if idx == 2 {
            (res_w - ll_w, res_h - ll_h)
        } else {
            (0, 0)
        }
    }
}

/// The QCD step size of subband `subband_idx` at level `res`, if given.
pub open spec fn qcd_step_size(image: J2kImage, res: int, subband_idx: int) -> Option<u16> {
    match image.qcd {
        Some(q) => {
            let i = if res == 0 { 0 } else { 1 + (res - 1) * 3 + subband_idx };
            if res < 0x1000_0000 && subband_idx < 0x1000_0000 && i < q.step_sizes@.len() {
                Some(q.step_sizes@[i])
            } else {
                None
            }
        },
        None => None,
    }
}

/// The most significant bit-plane of a code-block, as [`block_max_bit_plane`] gives it:
/// `M_b = G + epsilon_b - 1` magnitude bits for the subband (guard bits and exponent from
/// QCD, the component depth when QCD has no step for it), less one and the zero
/// bit-planes. Both wavelets use the subband's exponent: its gain is in it.
pub open spec fn max_bit_plane_of(
    image: J2kImage,
    cod: J2kCod,
    comp: int,
    res: int,
    subband_idx: int,
    zero_bp: int,
) -> int {
    let guard_bits: int = match image.qcd {
        Some(q) => (q.quant_style / 32) as int,
        None => 0,
    };
    let has_comp = comp < image.components@.len();
    let depth: int = if has_comp { image.components@[comp].depth as int } else { 8 };
    let epsilon: int = match qcd_step_size(image, res, subband_idx) {
        Some(v) => (v / 2048) as int,
        None => depth,
    };
    let m_b: int = if guard_bits + epsilon > 0 { guard_bits + epsilon - 1 } else { 0 };
    let a: int = if m_b > 0 { m_b - 1 } else { 0 };
    let b: int = if a > zero_bp { a - zero_bp } else { 0 };
    if b > 255 { 255 } else { b }
}

fn block_max_bit_plane(image: &J2kImage, cod: &J2kCod, comp: usize, res: usize, subband_idx: usize, zero_bp: u8) -> (r: u8)
    ensures
        r == max_bit_plane_of(*image, *cod, comp as int, res as int, subband_idx as int, zero_bp as int),
{
    let (quant_style, step): (u8, Option<u16>) = match &image.qcd {
        Some(q) => {
            if (res as u64) < 0x1000_0000 && (subband_idx as u64) < 0x1000_0000 {
                let qcd_idx: usize = if res == 0 { 0 } else { 1 + (res - 1) * 3 + subband_idx };
                (q.quant_style, if qcd_idx < q.step_sizes.len() { Some(q.step_sizes[qcd_idx]) } else { None })
            } else {
                (q.quant_style, None)
            }
        },
        None => (0, None),
    };
    let guard_bits: u8 = (quant_style >> 5u8) & 0x07;
    let depth: u8 = if comp < image.components.len() { image.components[comp].depth } else { 8 };
    let epsilon_b: u8 = match step {
        Some(v) => {
            let e: u16 = v >> 11u16;
            proof {
                lemma_u16_top5(v);
                vstd::bits::lemma_u16_shr_is_div(v, 11);
                vstd::arithmetic::power2::lemma2_to64();
            }
            e as u8
        },
        None => depth,
    };
    proof {
        lemma_and_bounded_u8(quant_style >> 5u8, 0x07);
        assert((quant_style >> 5u8) & 0x07 == quant_style / 32) by (bit_vector);
    }
    let t = guard_bits as u16 + epsilon_b as u16;
    let m_b: u16 = if t > 0 { t - 1 } else { 0 };
    let a: u16 = if m_b > 0 { m_b - 1 } else { 0 };
    let b: u16 = if a > zero_bp as u16 { a - zero_bp as u16 } else { 0 };
    if b > 255 { 255 } else { b as u8 }
}

/// Keeps the data of one code-block of a packet in tile `tile` (making its component,
/// level, subband slot and block when missing) and decodes its bit-planes; HT blocks
/// are kept undecoded.
fn store_block_data(
    tile: &mut J2kTile,
    comp: usize,
    res: usize,
    cb_info: CodeBlockInfo,
    data: Vec<u8>,
    layer_mark: u8,
    is_htj2k: bool,
    cod: &J2kCod,
    max_bit_plane: u8,
) -> (r: Result<(), JpeglsError>)
    requires
        res < 256,
        data@.len() + 2 <= usize::MAX,
    ensures
        tile_sizes_kept(*old(tile), *final(tile)),
        final(tile).components@.len() > comp,
        r is Err ==> r == Err::<(), JpeglsError>(JpeglsError::InvalidData),
        r is Ok <==> block_storable(cb_info, is_htj2k, *cod, max_bit_plane),
        r is Ok ==> stored_in(*final(tile), comp as int, res as int, cb_info, data@, layer_mark, is_htj2k),
        has_level(*old(tile), comp as int, res as int) ==> tile_shape_same(*old(tile), *final(tile)),
        r is Ok ==> forall|cb2: CodeBlockInfo, d2: Seq<u8>, m2: u8|
            #[trigger] stored_in(*old(tile), comp as int, res as int, cb2, d2, m2, is_htj2k) && !same_slot(cb2, cb_info, is_htj2k)
                ==> stored_in(*final(tile), comp as int, res as int, cb2, d2, m2, is_htj2k),
{
    let ghost tile0 = *tile;
    let ghost d = data@;
    if tile.components.len() <= comp {
        while tile.components.len() <= comp
            invariant
                tile.components@.len() >= tile0.components@.len(),
                forall|c: int| 0 <= c < tile0.components@.len() ==> #[trigger] tile.components@[c] == tile0.components@[c],
            decreases comp + 1 - tile.components@.len(),
        {
            tile.components.push(J2kTileComponent { component_index: 0, resolutions: Vec::new() });
        }
        let mut tc = tile.components.remove(comp);
        tc.component_index = comp as u32;
        tile.components.insert(comp, tc);
    }
    assert(forall|c: int|
        0 <= c < tile0.components@.len() ==> component_sizes_kept(tile0.components@[c], #[trigger] tile.components@[c]));
    let ghost tile1 = *tile;
    let mut component = tile.components.remove(comp);
    let ghost component0 = component;
    if component.resolutions.len() <= res {
        while component.resolutions.len() <= res
            invariant
                component.resolutions@.len() >= component0.resolutions@.len(),
                forall|r: int|
                    0 <= r < component0.resolutions@.len() ==> #[trigger] component.resolutions@[r] == component0.resolutions@[r],
            decreases res + 1 - component.resolutions@.len(),
        {
            component.resolutions.push(J2kResolution { level: 0, width: 0, height: 0, subbands: Vec::new() });
        }
        let mut rr = component.resolutions.remove(res);
        rr.level = res as u8;
        component.resolutions.insert(res, rr);
    }
    assert(component_sizes_kept(component0, component));
    let ghost component1 = component;
    let mut resolution = component.resolutions.remove(res);
    let ghost resolution0 = resolution;
    let outcome = store_in_resolution(&mut resolution, res, cb_info, data, layer_mark, is_htj2k, cod, max_bit_plane);
    component.resolutions.insert(res, resolution);
    assert(component.resolutions@ == component1.resolutions@.update(res as int, resolution));
    assert(component_sizes_kept(component1, component));
    assert(component_sizes_kept(component0, component));
    tile.components.insert(comp, component);
    assert(tile.components@ == tile1.components@.update(comp as int, component));
    assert(tile_sizes_kept(tile0, *tile)) by {
        assert forall|c: int| 0 <= c < tile0.components@.len() implies component_sizes_kept(
            tile0.components@[c],
            #[trigger] tile.components@[c],
        ) by {
            assert(component_sizes_kept(tile0.components@[c], tile1.components@[c]));
        }
    }
    proof {
        assert(tile.components@[comp as int] == component);
        assert(component.resolutions@[res as int] == resolution);
        if has_level(tile0, comp as int, res as int) {
            assert(tile1 == tile0);
            assert(component1 == component0);
            assert forall|c: int| 0 <= c < tile0.components@.len() implies (#[trigger] tile.components@[c]).resolutions@.len()
                == tile0.components@[c].resolutions@.len() by {
                if c != comp {
                    assert(tile.components@[c] == tile1.components@[c]);
                }
            }
        }
        if outcome is Ok {
            assert forall|cb2: CodeBlockInfo, d2: Seq<u8>, m2: u8|
                stored_in(tile0, comp as int, res as int, cb2, d2, m2, is_htj2k) && !same_slot(cb2, cb_info, is_htj2k) implies
                stored_in(*tile, comp as int, res as int, cb2, d2, m2, is_htj2k) by {
                assert(tile1 == tile0);
                assert(component0 == tile0.components@[comp as int]);
                assert(component1 == component0);
                assert(resolution0 == component0.resolutions@[res as int]);
                assert(block_stored(resolution0, res as int, cb2, d2, m2, is_htj2k));
            }
        }
    }
    outcome
}

/// Tile `t` has level `res` of component `comp`, and keeps there block `cb` with `data`
/// as its last layer, marked `mark` (see `block_stored`).
pub open spec fn stored_in(
    t: J2kTile,
    comp: int,
    res: int,
    cb: CodeBlockInfo,
    data: Seq<u8>,
    mark: u8,
    is_htj2k: bool,
) -> bool {
    &&& 0 <= comp < t.components@.len()
    &&& 0 <= res < t.components@[comp].resolutions@.len()
    &&& block_stored(t.components@[comp].resolutions@[res], res, cb, data, mark, is_htj2k)
}

/// No block after `q` and before `end` with data lands in the place of block `q`.
pub open spec fn last_in_slot(cbs: Seq<CodeBlockInfo>, q: int, end: int, is_htj2k: bool) -> bool {
    forall|q2: int| q < q2 < end && (#[trigger] cbs[q2]).data_len > 0 ==> !same_slot(cbs[q2], cbs[q], is_htj2k)
}

/// The bytes of block `q` in a packet body starting at `p` of `d`.
pub open spec fn block_bytes(d: Seq<u8>, p: int, cbs: Seq<CodeBlockInfo>, q: int) -> Seq<u8> {
    let start = p + body_length(cbs.take(q));
    d.subrange(start, start + cbs[q].data_len)
}

/// The number of body bytes of a packet: the data lengths of its code-blocks.
pub open spec fn body_length(cbs: Seq<CodeBlockInfo>) -> int
    decreases cbs.len(),
{
    if cbs.len() == 0 {
        0
    } else {
        body_length(cbs.drop_last()) + cbs.last().data_len
    }
}

/// Every code-block of a packet that has data can be kept, with the most significant
/// bit-plane its subband and zero bit-planes give.
pub open spec fn body_storable(
    cbs: Seq<CodeBlockInfo>,
    im: J2kImage,
    cod: J2kCod,
    comp: int,
    res: int,
    is_htj2k: bool,
) -> bool {
    forall|q: int|
        0 <= q < cbs.len() && (#[trigger] cbs[q]).data_len > 0 ==> block_storable(
            cbs[q],
            is_htj2k,
            cod,
            max_bit_plane_of(im, cod, comp, res, cbs[q].subband_index as int, cbs[q].zero_bp as int) as u8,
        )
}

/// Two COD segments hold the same values.
pub open spec fn same_cod(a: J2kCod, b: J2kCod) -> bool {
    &&& a.coding_style == b.coding_style
    &&& a.progression_order == b.progression_order
    &&& a.number_of_layers == b.number_of_layers
    &&& a.mct == b.mct
    &&& a.decomposition_levels == b.decomposition_levels
    &&& a.transformation == b.transformation
    &&& a.codeblock_width_exp == b.codeblock_width_exp
    &&& a.codeblock_height_exp == b.codeblock_height_exp
    &&& a.code_block_style == b.code_block_style
    &&& a.precinct_sizes@ == b.precinct_sizes@
}

/// A copy of a COD segment.
fn copy_cod(c: &J2kCod) -> (r: J2kCod)
    ensures
        same_cod(r, *c),
{
    let mut sizes: Vec<u8> = Vec::new();
    let mut i: usize = 0;
    while i < c.precinct_sizes.len()
        invariant
            i <= c.precinct_sizes@.len(),
            sizes@ == c.precinct_sizes@.take(i as int),
        decreases c.precinct_sizes@.len() - i,
    {
        sizes.push(c.precinct_sizes[i]);
        i = i + 1;
    }
    assert(sizes@ =~= c.precinct_sizes@);
    J2kCod {
        coding_style: c.coding_style,
        progression_order: c.progression_order,
        number_of_layers: c.number_of_layers,
        mct: c.mct,
        decomposition_levels: c.decomposition_levels,
        transformation: c.transformation,
        codeblock_width_exp: c.codeblock_width_exp,
        codeblock_height_exp: c.codeblock_height_exp,
        code_block_style: c.code_block_style,
        precinct_sizes: sizes,
    }
}

/// The body bytes of a prefix of the code-blocks are no more than those of all.
proof fn lemma_body_length_prefix(cbs: Seq<CodeBlockInfo>, j: int)
    requires
        0 <= j <= cbs.len(),
    ensures
        body_length(cbs.take(j)) <= body_length(cbs),
    decreases cbs.len(),
{
    if j < cbs.len() {
        assert(cbs.drop_last().take(j) =~= cbs.take(j));
        lemma_body_length_prefix(cbs.drop_last(), j);
    } else {
        assert(cbs.take(j) =~= cbs);
    }
}

/// The data of a code-block can be kept: an HT block always; otherwise block sizes
/// of at most 2^31, a block position whose sample offset fits in `usize`, and a
/// most significant bit-plane of at most 29.
pub open spec fn block_storable(cb_info: CodeBlockInfo, is_htj2k: bool, cod: J2kCod, max_bit_plane: u8) -> bool {
    is_htj2k || {
        &&& cod.codeblock_width_exp <= 29
        &&& cod.codeblock_height_exp <= 29
        &&& cb_info.x * pow2((cod.codeblock_width_exp + 2) as nat) <= usize::MAX
        &&& cb_info.y * pow2((cod.codeblock_height_exp + 2) as nat) <= usize::MAX
        &&& max_bit_plane <= 29
    }
}

/// The subband slot of a level that holds subband `idx` of its packets: the level's slots
/// are LL, HL, LH and HH, and the packets of a level above 0 list HL, LH and HH.
pub open spec fn block_slot(res: int, idx: int) -> int {
    if res == 0 { idx } else { idx + 1 }
}

/// Level `r` holds the data of block `cb_info`: its subband slot exists, with the
/// orientation of slot `subband_index` at level `res`, and holds a block whose last
/// layer is `data`, marked with `layer_mark`, at the block's grid position (HT blocks
/// are kept without a position).
pub open spec fn block_stored(
    r: J2kResolution,
    res: int,
    cb_info: CodeBlockInfo,
    data: Seq<u8>,
    layer_mark: u8,
    is_htj2k: bool,
) -> bool {
    let i = block_slot(res, cb_info.subband_index as int);
    &&& i < r.subbands@.len()
    &&& res == 0 ==> r.subbands@[i].orientation == SubbandOrientation::LL
    &&& res != 0 && cb_info.subband_index == 0 ==> r.subbands@[i].orientation == SubbandOrientation::HL
    &&& res != 0 && cb_info.subband_index == 1 ==> r.subbands@[i].orientation == SubbandOrientation::LH
    &&& res != 0 && cb_info.subband_index == 2 ==> r.subbands@[i].orientation == SubbandOrientation::HH
    &&& exists|k: int|
        0 <= k < r.subbands@[i].codeblocks@.len() && {
            let b = #[trigger] r.subbands@[i].codeblocks@[k];
            &&& b.layers_decoded == layer_mark
            &&& b.layer_data@.len() > 0
            &&& b.layer_data@.last()@ == data
            &&& !is_htj2k ==> b.x == cb_info.x as u32 && b.y == cb_info.y as u32
        }
}

/// Blocks `a` and `b` of one packet land in one place: the same subband slot and grid
/// position (HT blocks never do: each is kept apart).
pub open spec fn same_slot(a: CodeBlockInfo, b: CodeBlockInfo, is_htj2k: bool) -> bool {
    &&& !is_htj2k
    &&& a.subband_index == b.subband_index
    &&& a.x as u32 == b.x as u32
    &&& a.y as u32 == b.y as u32
}

/// Keeps the data of one code-block in level `resolution`: sets the orientation of
/// its subband slot, and adds the data to the block at its grid position (or makes
/// the block, sized from the nominal block size and what is left of the subband),
/// decoding its bit-planes.
fn store_in_resolution(
    resolution: &mut J2kResolution,
    res: usize,
    cb_info: CodeBlockInfo,
    data: Vec<u8>,
    layer_mark: u8,
    is_htj2k: bool,
    cod: &J2kCod,
    max_bit_plane: u8,
) -> (r: Result<(), JpeglsError>)
    requires
        data@.len() + 2 <= usize::MAX,
    ensures
        final(resolution).width == old(resolution).width,
        final(resolution).height == old(resolution).height,
        r is Err ==> r == Err::<(), JpeglsError>(JpeglsError::InvalidData),
        r is Ok <==> block_storable(cb_info, is_htj2k, *cod, max_bit_plane),
        r is Ok ==> block_stored(*final(resolution), res as int, cb_info, data@, layer_mark, is_htj2k),
        r is Ok ==> forall|cb2: CodeBlockInfo, d2: Seq<u8>, m2: u8|
            #[trigger] block_stored(*old(resolution), res as int, cb2, d2, m2, is_htj2k) && !same_slot(cb2, cb_info, is_htj2k)
                ==> block_stored(*final(resolution), res as int, cb2, d2, m2, is_htj2k),
{
    let ghost res0 = *resolution;
    let subband_idx = cb_info.subband_index as usize;
    let slot_idx: usize = if res == 0 { subband_idx } else { subband_idx + 1 };
    while resolution.subbands.len() <= slot_idx
        invariant
            resolution.width == old(resolution).width,
            resolution.height == old(resolution).height,
            res0 == *old(resolution),
            resolution.subbands@.len() >= res0.subbands@.len(),
            forall|i: int| 0 <= i < res0.subbands@.len() ==> #[trigger] resolution.subbands@[i] == res0.subbands@[i],
        decreases slot_idx + 1 - resolution.subbands@.len(),
    {
        resolution.subbands.push(
            J2kSubband { orientation: SubbandOrientation::LL, width: 0, height: 0, codeblocks: Vec::new() },
        );
    }
    let ghost subs1 = resolution.subbands@;
    let mut subband = resolution.subbands.remove(slot_idx);
    let ghost cbs0 = subband.codeblocks@;
    let ghost mut found: int = -1;
    if res == 0 {
        subband.orientation = SubbandOrientation::LL;
    } else if subband_idx == 0 {
        subband.orientation = SubbandOrientation::HL;
    } else if subband_idx == 1 {
        subband.orientation = SubbandOrientation::LH;
    } else if subband_idx == 2 {
        subband.orientation = SubbandOrientation::HH;
    }
    let mut outcome: Result<(), JpeglsError> = Ok(());
    let ghost mut slot: int = 0;
    if is_htj2k {
        let mut layers: Vec<Vec<u8>> = Vec::new();
        layers.push(data);
        subband.codeblocks.push(
            J2kCodeBlock {
                x: 0,
                y: 0,
                width: 0,
                height: 0,
                zero_bit_planes: 0,
                coding_passes: 0,
                coefficients: Vec::new(),
                layer_data: layers,
                layers_decoded: layer_mark,
                state: Vec::new(),
                mq_contexts: Vec::new(),
                mq_a: 0,
                mq_c: 0,
                mq_ct: 0,
            },
        );
        proof {
            slot = subband.codeblocks@.len() - 1;
        }
    } else if cod.codeblock_width_exp > 29 || cod.codeblock_height_exp > 29 {
        outcome = Err(JpeglsError::InvalidData);
    } else {
        let nom_w: usize = 1usize << ((cod.codeblock_width_exp + 2) as usize);
        let nom_h: usize = 1usize << ((cod.codeblock_height_exp + 2) as usize);
        proof {
            lemma_one_shl_usize((cod.codeblock_width_exp + 2) as usize);
            lemma_one_shl_usize((cod.codeblock_height_exp + 2) as usize);
            vstd::arithmetic::power2::lemma_pow2_strictly_increases((cod.codeblock_width_exp + 2) as nat, 32);
            vstd::arithmetic::power2::lemma_pow2_strictly_increases((cod.codeblock_height_exp + 2) as nat, 32);
            vstd::arithmetic::power2::lemma2_to64();
        }
        let (sb_w, sb_h) = subband_size(res, subband_idx, resolution.width as usize, resolution.height as usize);
        match (cb_info.x.checked_mul(nom_w), cb_info.y.checked_mul(nom_h)) {
            (Some(cb_x), Some(cb_y)) => {
                let rest_w = if sb_w > cb_x { sb_w - cb_x } else { 0 };
                let rest_h = if sb_h > cb_y { sb_h - cb_y } else { 0 };
                let cb_width = if nom_w < rest_w { nom_w } else { rest_w };
                let cb_height = if nom_h < rest_h { nom_h } else { rest_h };
                let orient: u8 = if res == 0 { 0 } else { (subband_idx as u8).wrapping_add(1) };
                if max_bit_plane > 29 || cb_width > u32::MAX as usize || cb_height > u32::MAX as usize {
                    outcome = Err(JpeglsError::InvalidData);
                } else {
                    match find_codeblock(&subband.codeblocks, cb_info.x as u32, cb_info.y as u32) {
                        Some(idx) => {
                            let mut block = subband.codeblocks.remove(idx);
                            let copy = data.clone();
                            assert(copy@ =~= data@);
                            block.layer_data.push(copy);
                            block.layers_decoded = layer_mark;
                            decode_block_data(&mut block, &data, max_bit_plane, cb_info.num_passes, orient);
                            subband.codeblocks.insert(idx, block);
                            assert(subband.codeblocks@[idx as int] == block);
                            proof {
                                slot = idx as int;
                                found = idx as int;
                                assert(subband.codeblocks@ =~= cbs0.update(idx as int, block));
                            }
                        },
                        None => {
                            let mut layers: Vec<Vec<u8>> = Vec::new();
                            let copy = data.clone();
                            assert(copy@ =~= data@);
                            layers.push(copy);
                            let mut block = J2kCodeBlock {
                                x: cb_info.x as u32,
                                y: cb_info.y as u32,
                                width: cb_width as u32,
                                height: cb_height as u32,
                                zero_bit_planes: 0,
                                coding_passes: 0,
                                coefficients: Vec::new(),
                                layer_data: layers,
                                layers_decoded: layer_mark,
                                state: Vec::new(),
                                mq_contexts: Vec::new(),
                                mq_a: 0,
                                mq_c: 0,
                                mq_ct: 0,
                            };
                            decode_block_data(&mut block, &data, max_bit_plane, cb_info.num_passes, orient);
                            subband.codeblocks.push(block);
                            assert(subband.codeblocks@.last() == block);
                            proof {
                                slot = subband.codeblocks@.len() - 1;
                            }
                        },
                    }
                }
            },
            _ => {
                outcome = Err(JpeglsError::InvalidData);
            },
        }
    }
    resolution.subbands.insert(slot_idx, subband);
    assert(resolution.subbands@[slot_idx as int] == subband);
    assert(resolution.subbands@ =~= subs1.update(slot_idx as int, subband));
    proof {
        if outcome is Ok {
            let b = resolution.subbands@[slot_idx as int].codeblocks@[slot];
            assert(b.layers_decoded == layer_mark);
            assert(b.layer_data@.last()@ == data@);
            assert forall|cb2: CodeBlockInfo, d2: Seq<u8>, m2: u8|
                block_stored(res0, res as int, cb2, d2, m2, is_htj2k) && !same_slot(cb2, cb_info, is_htj2k) implies
                block_stored(*resolution, res as int, cb2, d2, m2, is_htj2k) by {
                let i2 = block_slot(res as int, cb2.subband_index as int);
                let k = choose|k: int|
                    0 <= k < res0.subbands@[i2].codeblocks@.len() && {
                        let b = #[trigger] res0.subbands@[i2].codeblocks@[k];
                        &&& b.layers_decoded == m2
                        &&& b.layer_data@.len() > 0
                        &&& b.layer_data@.last()@ == d2
                        &&& !is_htj2k ==> b.x == cb2.x as u32 && b.y == cb2.y as u32
                    };
                assert(subs1[i2] == res0.subbands@[i2]);
                if i2 == slot_idx as int {
                    assert(cbs0 == res0.subbands@[i2].codeblocks@);
                    if found >= 0 {
                        assert(k != found);
                    }
                    assert(resolution.subbands@[i2].codeblocks@[k] == res0.subbands@[i2].codeblocks@[k]);
                } else {
                    assert(resolution.subbands@[i2] == res0.subbands@[i2]);
                    assert(resolution.subbands@[i2].codeblocks@[k] == res0.subbands@[i2].codeblocks@[k]);
                }
            }
        }
    }
    outcome
}

impl<'a, 'b> J2kDecoder<'a, 'b> {
    /// Reads the body of a packet: the data of each included code-block, which is kept
    /// with the block and decoded (bit-plane decoding; HT blocks are kept undecoded).
    fn decode_packet_body(
        parser: &mut J2kParser,
        header: PacketHeader,
        isot: u16,
        comp: usize,
        res: usize,
        layer: usize,
        is_htj2k: bool,
    ) -> (r: Result<(), JpeglsError>)
        requires
            old(parser).reader.wf(),
            old(parser).reader.pos() <= old(parser).reader.data().len(),
            (isot as int) < old(parser).image.tiles@.len(),
            old(parser).image.cod is Some,
            res < 256,
        ensures
            final(parser).reader.same_but_pos(old(parser).reader),
            old(parser).reader.pos() <= final(parser).reader.pos() <= final(parser).reader.data().len(),
            same_header(*final(parser).image, *old(parser).image),
            final(parser).image.tiles@.len() == old(parser).image.tiles@.len(),
            sizes_kept(*old(parser).image, *final(parser).image),
            r is Err ==> r == Err::<(), JpeglsError>(JpeglsError::InvalidData),
            r is Ok ==> final(parser).reader.pos() == old(parser).reader.pos() + body_length(header.included_cblks@),
            old(parser).reader.pos() + body_length(header.included_cblks@) > old(parser).reader.data().len() ==> r is Err,
            r is Ok <==> old(parser).reader.pos() + body_length(header.included_cblks@) <= old(parser).reader.data().len()
                && body_storable(
                header.included_cblks@,
                *old(parser).image,
                old(parser).image.cod.unwrap(),
                comp as int,
                res as int,
                is_htj2k,
            ),
            shape_kept_at(*old(parser).image, *final(parser).image, isot as int, comp as int, res as int),
            r is Ok ==> forall|q: int|
                #![trigger header.included_cblks@[q]]
                0 <= q < header.included_cblks@.len() && header.included_cblks@[q].data_len > 0 && last_in_slot(
                    header.included_cblks@,
                    q,
                    header.included_cblks@.len() as int,
                    is_htj2k,
                ) ==> stored_in(
                    final(parser).image.tiles@[isot as int],
                    comp as int,
                    res as int,
                    header.included_cblks@[q],
                    block_bytes(old(parser).reader.data(), old(parser).reader.pos() as int, header.included_cblks@, q),
                    (layer as u8).wrapping_add(1),
                    is_htj2k,
                ),
    {
        proof {
            lemma_sizes_kept_refl(*parser.image);
            lemma_shape_kept_refl(*parser.image, isot as int, comp as int, res as int);
        }
        let cod = match &parser.image.cod {
            Some(c) => copy_cod(c),
            None => {
                return Err(JpeglsError::InvalidData);
            },
        };
        let ghost im = *parser.image;
        let layer_mark: u8 = (layer as u8).wrapping_add(1);
        let ghost d0 = parser.reader.data();
        let ghost p_start = parser.reader.pos() as int;
        let mut k: usize = 0;
        while k < header.included_cblks.len()
            invariant
                d0 == old(parser).reader.data(),
                p_start == old(parser).reader.pos(),
                shape_kept_at(im, *parser.image, isot as int, comp as int, res as int),
                layer_mark == (layer as u8).wrapping_add(1),
                forall|q: int|
                    #![trigger header.included_cblks@[q]]
                    0 <= q < k && header.included_cblks@[q].data_len > 0 && last_in_slot(
                        header.included_cblks@,
                        q,
                        k as int,
                        is_htj2k,
                    ) ==> stored_in(
                        parser.image.tiles@[isot as int],
                        comp as int,
                        res as int,
                        header.included_cblks@[q],
                        block_bytes(d0, p_start, header.included_cblks@, q),
                        layer_mark,
                        is_htj2k,
                    ),
                parser.reader.wf(),
                parser.reader.same_but_pos(old(parser).reader),
                old(parser).reader.pos() <= parser.reader.pos() <= parser.reader.data().len(),
                same_header(*parser.image, im),
                im == *old(parser).image,
                parser.image.tiles@.len() == im.tiles@.len(),
                sizes_kept(im, *parser.image),
                (isot as int) < im.tiles@.len(),
                res < 256,
                k <= header.included_cblks@.len(),
                parser.reader.pos() == old(parser).reader.pos() + body_length(header.included_cblks@.take(k as int)),
                same_cod(cod, old(parser).image.cod.unwrap()),
                body_storable(
                    header.included_cblks@.take(k as int),
                    im,
                    old(parser).image.cod.unwrap(),
                    comp as int,
                    res as int,
                    is_htj2k,
                ),
            decreases header.included_cblks@.len() - k,
        {
            let cb_info = header.included_cblks[k];
            proof {
                assert(header.included_cblks@.take(k + 1).drop_last() =~= header.included_cblks@.take(k as int));
            }
            if cb_info.data_len > 0 {
                let data_len = cb_info.data_len as usize;
                let mut data: Vec<u8> = Vec::new();
                let mut j: usize = 0;
                let ghost p0 = parser.reader.pos();
                let ghost im_s = *parser.image;
                while j < data_len
                    invariant
                        *parser.image == im_s,
                        shape_kept_at(im, im_s, isot as int, comp as int, res as int),
                        parser.reader.wf(),
                        parser.reader.same_but_pos(old(parser).reader),
                        old(parser).reader.pos() <= p0,
                        parser.reader.pos() == p0 + j,
                        parser.reader.pos() <= parser.reader.data().len(),
                        data@.len() == j,
                        data@ == parser.reader.data().subrange(p0, p0 + j),
                        j <= data_len,
                        same_header(*parser.image, im),
                        im == *old(parser).image,
                        parser.image.tiles@.len() == im.tiles@.len(),
                        sizes_kept(im, *parser.image),
                        (isot as int) < im.tiles@.len(),
                        k < header.included_cblks@.len(),
                        cb_info == header.included_cblks@[k as int],
                        data_len == cb_info.data_len,
                        p0 == old(parser).reader.pos() + body_length(header.included_cblks@.take(k as int)),
                    decreases data_len - j,
                {
                    let b = match parser.reader.read_u8() {
                        Ok(b) => b,
                        Err(e) => {
                            proof {
                                lemma_body_length_prefix(header.included_cblks@, k + 1);
                                assert(header.included_cblks@.take(k + 1).last() == cb_info);
                                assert(header.included_cblks@.take(k + 1).drop_last() =~= header.included_cblks@.take(
                                    k as int,
                                ));
                                assert(body_length(header.included_cblks@.take(k + 1)) == body_length(
                                    header.included_cblks@.take(k as int),
                                ) + cb_info.data_len);
                            }
                            return Err(e);
                        },
                    };
                    data.push(b);
                    j = j + 1;
                    assert(data@ =~= parser.reader.data().subrange(p0, p0 + j));
                }
                let tile_idx = isot as usize;
                let subband_idx = cb_info.subband_index as usize;
                let max_bit_plane = block_max_bit_plane(&parser.image, &cod, comp, res, subband_idx, cb_info.zero_bp);
                let ghost im_k = *parser.image;
                let ghost bytes = data@;
                assert(bytes == block_bytes(d0, p_start, header.included_cblks@, k as int));
                let mut tile = parser.image.tiles.remove(tile_idx);
                let ghost tile_k = tile;
                let outcome = store_block_data(&mut tile, comp, res, cb_info, data, layer_mark, is_htj2k, &cod, max_bit_plane);
                parser.image.tiles.insert(tile_idx, tile);
                assert(parser.image.tiles@ == im_k.tiles@.update(tile_idx as int, tile));
                assert(sizes_kept(im_k, *parser.image));
                proof {
                    assert(shape_kept_at(im_k, *parser.image, isot as int, comp as int, res as int));
                    lemma_shape_kept_trans(im, im_k, *parser.image, isot as int, comp as int, res as int);
                }
                proof {
                    lemma_sizes_kept_trans(im, im_k, *parser.image);
                }
                let ghost oc = old(parser).image.cod.unwrap();
                proof {
                    assert(max_bit_plane as int == max_bit_plane_of(
                        im,
                        oc,
                        comp as int,
                        res as int,
                        subband_idx as int,
                        cb_info.zero_bp as int,
                    ));
                    assert(block_storable(cb_info, is_htj2k, cod, max_bit_plane) == block_storable(
                        cb_info,
                        is_htj2k,
                        oc,
                        max_bit_plane,
                    ));
                }
                if outcome.is_err() {
                    proof {
                        assert(header.included_cblks@[k as int] == cb_info);
                        assert(max_bit_plane == max_bit_plane_of(
                            im,
                            oc,
                            comp as int,
                            res as int,
                            cb_info.subband_index as int,
                            cb_info.zero_bp as int,
                        ) as u8);
                        assert(!body_storable(header.included_cblks@, im, oc, comp as int, res as int, is_htj2k));
                    }
                    return Err(JpeglsError::InvalidData);
                }
                proof {
                    assert(tile_k == im_k.tiles@[isot as int]);
                    assert(parser.image.tiles@[isot as int] == tile);
                    assert forall|q: int|
                        #![trigger header.included_cblks@[q]]
                        0 <= q < k + 1 && header.included_cblks@[q].data_len > 0 && last_in_slot(
                            header.included_cblks@,
                            q,
                            k + 1,
                            is_htj2k,
                        ) implies stored_in(
                        parser.image.tiles@[isot as int],
                        comp as int,
                        res as int,
                        header.included_cblks@[q],
                        block_bytes(d0, p_start, header.included_cblks@, q),
                        layer_mark,
                        is_htj2k,
                    ) by {
                        if q < k {
                            assert(last_in_slot(header.included_cblks@, q, k as int, is_htj2k));
                            assert(header.included_cblks@[k as int].data_len > 0);
                            assert(!same_slot(header.included_cblks@[k as int], header.included_cblks@[q], is_htj2k));
                            assert(stored_in(tile_k, comp as int, res as int, header.included_cblks@[q], block_bytes(d0, p_start, header.included_cblks@, q), layer_mark, is_htj2k));
                        }
                    }
                }
            } else {
                proof {
                    assert forall|q: int|
                        #![trigger header.included_cblks@[q]]
                        0 <= q < k + 1 && header.included_cblks@[q].data_len > 0 && last_in_slot(
                            header.included_cblks@,
                            q,
                            k + 1,
                            is_htj2k,
                        ) implies stored_in(
                        parser.image.tiles@[isot as int],
                        comp as int,
                        res as int,
                        header.included_cblks@[q],
                        block_bytes(d0, p_start, header.included_cblks@, q),
                        layer_mark,
                        is_htj2k,
                    ) by {
                        assert(q < k);
                        assert(last_in_slot(header.included_cblks@, q, k as int, is_htj2k));
                    }
                }
            }
            proof {
                assert forall|q: int|
                    0 <= q < k + 1 && (#[trigger] header.included_cblks@.take(k + 1)[q]).data_len > 0 implies block_storable(
                    header.included_cblks@.take(k + 1)[q],
                    is_htj2k,
                    old(parser).image.cod.unwrap(),
                    max_bit_plane_of(
                        im,
                        old(parser).image.cod.unwrap(),
                        comp as int,
                        res as int,
                        header.included_cblks@.take(k + 1)[q].subband_index as int,
                        header.included_cblks@.take(k + 1)[q].zero_bp as int,
                    ) as u8,
                ) by {
                    if q < k {
                        assert(header.included_cblks@.take(k + 1)[q] == header.included_cblks@.take(k as int)[q]);
                    }
                }
            }
            k = k + 1;
        }
        assert(header.included_cblks@.take(k as int) =~= header.included_cblks@);
        Ok(())
    }

    /// Reads one packet of precinct `precinct`: its SOP marker when Scod asks for one,
    /// its header (when any data is left), its EPH marker when Scod asks for one, and
    /// its body.
    fn read_packet(
        parser: &mut J2kParser,
        precinct: &mut PrecinctState,
        coding_style: u8,
        layer: usize,
        grid: (usize, usize),
        num_subbands: usize,
        isot: u16,
        comp: usize,
        res: usize,
    ) -> (r: Result<(), JpeglsError>)
        requires
            old(parser).reader.wf(),
            old(parser).reader.pos() <= old(parser).reader.data().len(),
            (isot as int) < old(parser).image.tiles@.len(),
            old(parser).image.cod is Some,
            old(precinct).wf(),
            grid_fits(grid.0, grid.1),
            layer < u32::MAX,
            res < 256,
        ensures
            reading_ok(*final(parser).reader, *final(parser).image, *old(parser).reader, *old(parser).image),
            shape_kept_at(*old(parser).image, *final(parser).image, isot as int, comp as int, res as int),
            r is Ok ==> final(parser).reader.pos() <= final(parser).reader.data().len(),
            final(precinct).wf(),
            r is Err ==> r == Err::<(), JpeglsError>(JpeglsError::InvalidData),
            ({
                let d = old(parser).reader.data();
                let p = old(parser).reader.pos();
                &&& coding_style & 0x02 != 0 && !(p + 2 <= d.len() && be_u16_at(d, p) == 0xFF91) ==> r is Err
                &&& coding_style & 0x02 == 0 && p == d.len() ==> r is Ok && final(parser).reader.pos() == p
                    && *final(parser).image == *old(parser).image
            }),
    {
        proof {
            lemma_sizes_kept_refl(*parser.image);
            lemma_shape_kept_refl(*parser.image, isot as int, comp as int, res as int);
        }
        if coding_style & 0x02 != 0 {
            let marker = match parser.reader.read_u16() {
                Ok(m) => m,
                Err(_) => 0,
            };
            if marker != 0xFF91 {
                return Err(JpeglsError::InvalidData);
            }
            let _ = parser.reader.read_u16();
            let _ = parser.reader.read_u16();
        }
        let remaining = parser.reader.remaining_data();
        if remaining.len() == 0 {
            return Ok(());
        }
        let mut grids: Vec<(usize, usize)> = Vec::new();
        let mut s: usize = 0;
        while s < num_subbands
            invariant
                grid_fits(grid.0, grid.1),
                forall|k: int| 0 <= k < grids@.len() ==> #[trigger] grids@[k] == grid,
            decreases num_subbands - s,
        {
            grids.push(grid);
            s = s + 1;
        }
        let mut sub = JpegStreamReader::new(remaining);
        let read = {
            let mut bits = J2kBitReader::new(&mut sub);
            PacketHeader::read(&mut bits, precinct, layer as u32, grids.as_slice(), num_subbands)
        };
        let consumed = sub.position();
        if consumed > remaining.len() {
            return Err(JpeglsError::InvalidData);
        }
        let header = match read {
            Ok(h) => h,
            Err(_) => {
                return Err(JpeglsError::InvalidData);
            },
        };
        parser.reader.advance(consumed);
        if coding_style & 0x04 != 0 {
            let marker = match parser.reader.read_u16() {
                Ok(m) => m,
                Err(_) => 0,
            };
            if marker != 0xFF92 {
                return Err(JpeglsError::InvalidData);
            }
        }
        Self::decode_packet_body(parser, header, isot, comp, res, layer, false)
    }

    /// Reads, precinct by precinct (row by row), the packets of layer `layer` of one
    /// resolution level: precincts of `2^PPx` by `2^PPy` (from Scod's precinct sizes,
    /// else 32768 square) cut the level of size `(res_state.width, res_state.height)`.
    fn decode_resolution_packets(
        parser: &mut J2kParser,
        res_state: &mut ResolutionState,
        cod: &J2kCod,
        layer: usize,
        res: usize,
        comp: usize,
        isot: u16,
    ) -> (r: Result<(), JpeglsError>)
        requires
            old(parser).reader.wf(),
            old(parser).reader.pos() <= old(parser).reader.data().len(),
            (isot as int) < old(parser).image.tiles@.len(),
            old(parser).image.cod is Some,
            old(res_state).wf(),
            layer < u32::MAX,
            res < 256,
        ensures
            reading_ok(*final(parser).reader, *final(parser).image, *old(parser).reader, *old(parser).image),
            r is Ok ==> final(parser).reader.pos() <= final(parser).reader.data().len(),
            shape_kept_at(*old(parser).image, *final(parser).image, isot as int, comp as int, res as int),
            final(res_state).wf(),
            final(res_state).width == old(res_state).width,
            final(res_state).height == old(res_state).height,
            r is Err ==> r == Err::<(), JpeglsError>(JpeglsError::InvalidData),
    {
        let num_subbands: usize = if res == 0 { 1 } else { 3 };
        let (ppx, ppy): (u64, u64) = if cod.precinct_sizes.len() > 0 && res < cod.precinct_sizes.len() {
            let s = cod.precinct_sizes[res];
            let shift_x: u8 = s & 0x0F;
            let shift_y: u8 = (s >> 4u8) & 0x0F;
            proof {
                lemma_and_bounded_u8(s, 0x0F);
                lemma_and_bounded_u8(s >> 4u8, 0x0F);
            }
            let a: u64 = 1u64 << (shift_x as u64);
            let b: u64 = 1u64 << (shift_y as u64);
            proof {
                lemma_one_shl_u64(shift_x as u64);
                lemma_one_shl_u64(shift_y as u64);
                lemma_pow2_small(shift_x as nat);
                lemma_pow2_small(shift_y as nat);
            }
            (a, b)
        } else {
            (32768, 32768)
        };
        let grid_w: u64 = ceil_div_u64(res_state.width as u64, ppx);
        let grid_h: u64 = ceil_div_u64(res_state.height as u64, ppy);
        if grid_w > u32::MAX as u64 || grid_h > u32::MAX as u64 {
            return Err(JpeglsError::InvalidData);
        }
        if grid_w > usize::MAX as u64 || grid_h > usize::MAX as u64 {
            return Err(JpeglsError::InvalidData);
        }
        let gw = grid_w as usize;
        let gh = grid_h as usize;
        if !grid_fits_check(gw, gh) {
            return Err(JpeglsError::InvalidData);
        }
        let ghost r0 = *old(parser).reader;
        let ghost im0 = *old(parser).image;
        proof {
            lemma_sizes_kept_refl(im0);
            lemma_shape_kept_refl(im0, isot as int, comp as int, res as int);
        }
        let mut py: usize = 0;
        while py < gh
            invariant
                shape_kept_at(im0, *parser.image, isot as int, comp as int, res as int),
                reading_ok(*parser.reader, *parser.image, r0, im0),
                r0 == *old(parser).reader,
                im0 == *old(parser).image,
                parser.reader.pos() <= parser.reader.data().len(),
                (isot as int) < im0.tiles@.len(),
                im0.cod is Some,
                res_state.wf(),
                res_state.width == old(res_state).width,
                res_state.height == old(res_state).height,
                grid_fits(gw, gh),
                gw <= u32::MAX,
                gh <= u32::MAX,
                layer < u32::MAX,
                res < 256,
                py <= gh,
            decreases gh - py,
        {
            let mut px: usize = 0;
            while px < gw
                invariant
                    shape_kept_at(im0, *parser.image, isot as int, comp as int, res as int),
                    reading_ok(*parser.reader, *parser.image, r0, im0),
                    r0 == *old(parser).reader,
                    im0 == *old(parser).image,
                r0 == *old(parser).reader,
                im0 == *old(parser).image,
                    parser.reader.pos() <= parser.reader.data().len(),
                    (isot as int) < im0.tiles@.len(),
                    im0.cod is Some,
                    res_state.wf(),
                    res_state.width == old(res_state).width,
                    res_state.height == old(res_state).height,
                    grid_fits(gw, gh),
                    gw <= u32::MAX,
                    gh <= u32::MAX,
                    layer < u32::MAX,
                    res < 256,
                    py < gh,
                    px <= gw,
                decreases gw - px,
            {
                let key: (u32, u32) = (px as u32, py as u32);
                let mut found: Option<usize> = None;
                let mut i: usize = 0;
                while i < res_state.precincts.len()
                    invariant
                        i <= res_state.precincts@.len(),
                        found matches Some(j) ==> j < res_state.precincts@.len(),
                    decreases res_state.precincts@.len() - i,
                {
                    if res_state.precincts[i].0.0 == key.0 && res_state.precincts[i].0.1 == key.1 {
                        found = Some(i);
                        break;
                    }
                    i = i + 1;
                }
                let at: usize = match found {
                    Some(j) => j,
                    None => {
                        res_state.precincts.push((key, PrecinctState::new(num_subbands, 0)));
                        res_state.precincts.len() - 1
                    },
                };
                let (k, mut precinct) = res_state.precincts.remove(at);
                let ghost im_before = *parser.image;
                let outcome = Self::read_packet(
                    parser,
                    &mut precinct,
                    cod.coding_style,
                    layer,
                    (gw, gh),
                    num_subbands,
                    isot,
                    comp,
                    res,
                );
                res_state.precincts.insert(at, (k, precinct));
                proof {
                    lemma_sizes_kept_trans(im0, im_before, *parser.image);
                    lemma_shape_kept_trans(im0, im_before, *parser.image, isot as int, comp as int, res as int);
                }
                if outcome.is_err() {
                    return Err(JpeglsError::InvalidData);
                }
                px = px + 1;
            }
            py = py + 1;
        }
        Ok(())
    }

    /// Reads the packets of the last tile in layer, resolution, component, precinct
    /// order. The packet state goes to the last entry of `tile_states` (made if there is
    /// none); each level's state takes its size from the same tile index in the image.
    fn decode_packets(parser: &mut J2kParser, tile_states: &mut Vec<TileState>) -> (r: Result<(), JpeglsError>)
        requires
            old(parser).reader.wf(),
            old(parser).reader.pos() <= old(parser).reader.data().len(),
            tile_states_wf(old(tile_states)@),
        ensures
            reading_ok(*final(parser).reader, *final(parser).image, *old(parser).reader, *old(parser).image),
            tile_states_wf(final(tile_states)@),
            final(tile_states)@.len() == if old(tile_states)@.len() == 0 { 1 } else { old(tile_states)@.len() as int },
            r is Ok ==> final(parser).reader.pos() <= final(parser).reader.data().len(),
            r is Err ==> r == Err::<(), JpeglsError>(JpeglsError::InvalidData),
            old(parser).image.cod is None ==> r is Err,
            old(parser).image.tiles@.len() == 0 ==> r is Err,
            ({
                let im = *old(parser).image;
                let w = packet_tile_index(im.tiles@.len() as int);
                &&& forall|t: int|
                    0 <= t < im.tiles@.len() && t != w ==> #[trigger] final(parser).image.tiles@[t] == im.tiles@[t]
                &&& im.cod is Some && 0 <= w && tile_fits(
                    im.tiles@[w],
                    im.component_count as int,
                    im.cod->Some_0.decomposition_levels + 1,
                ) ==> tile_shape_same(im.tiles@[w], final(parser).image.tiles@[w])
            }),
    {
        if tile_states.len() == 0 {
            tile_states.push(TileState { components: Vec::new() });
        }
        let ts_idx: usize = tile_states.len() - 1;
        let cod = match &parser.image.cod {
            Some(c) => copy_cod(c),
            None => {
                return Err(JpeglsError::InvalidData);
            },
        };
        if parser.image.tiles.len() == 0 {
            return Err(JpeglsError::InvalidData);
        }
        let num_layers: usize = cod.number_of_layers as usize;
        let num_resolutions: usize = cod.decomposition_levels as usize + 1;
        let num_components: usize = parser.image.component_count as usize;
        let last: usize = parser.image.tiles.len() - 1;
        let isot: u16 = if last > 0xFFFF { (last % 0x10000) as u16 } else { last as u16 };
        let ghost r0 = *old(parser).reader;
        let ghost im0 = *old(parser).image;
        let ghost n_ts = tile_states@.len();
        proof {
            lemma_sizes_kept_refl(im0);
        }
        let mut l: usize = 0;
        while l < num_layers
            invariant
                reading_ok(*parser.reader, *parser.image, r0, im0),
                r0 == *old(parser).reader,
                im0 == *old(parser).image,
                parser.reader.pos() <= parser.reader.data().len(),
                (isot as int) < im0.tiles@.len(),
                im0.cod is Some,
                tile_states_wf(tile_states@),
                tile_states@.len() == n_ts,
                n_ts == if old(tile_states)@.len() == 0 { 1 } else { old(tile_states)@.len() as int },
                ts_idx < n_ts,
                forall|t: int| 0 <= t < im0.tiles@.len() && t != isot as int ==> #[trigger] parser.image.tiles@[t] == im0.tiles@[t],
                tile_fits(im0.tiles@[isot as int], num_components as int, num_resolutions as int) ==> tile_shape_same(
                    im0.tiles@[isot as int],
                    parser.image.tiles@[isot as int],
                ),
                num_components == im0.component_count,
                num_resolutions == im0.cod->Some_0.decomposition_levels + 1,
                isot as int == packet_tile_index(im0.tiles@.len() as int),
                num_layers <= 0xFFFF,
                num_resolutions <= 256,
                l <= num_layers,
            decreases num_layers - l,
        {
            let mut r: usize = 0;
            while r < num_resolutions
                invariant
                    reading_ok(*parser.reader, *parser.image, r0, im0),
                    r0 == *old(parser).reader,
                    im0 == *old(parser).image,
                    parser.reader.pos() <= parser.reader.data().len(),
                    (isot as int) < im0.tiles@.len(),
                    im0.cod is Some,
                    tile_states_wf(tile_states@),
                    tile_states@.len() == n_ts,
                    n_ts == if old(tile_states)@.len() == 0 { 1 } else { old(tile_states)@.len() as int },
                    ts_idx < n_ts,
                    forall|t: int| 0 <= t < im0.tiles@.len() && t != isot as int ==> #[trigger] parser.image.tiles@[t] == im0.tiles@[t],
                    tile_fits(im0.tiles@[isot as int], num_components as int, num_resolutions as int) ==> tile_shape_same(
                        im0.tiles@[isot as int],
                        parser.image.tiles@[isot as int],
                    ),
                    num_components == im0.component_count,
                    num_resolutions == im0.cod->Some_0.decomposition_levels + 1,
                    isot as int == packet_tile_index(im0.tiles@.len() as int),
                    l < num_layers <= 0xFFFF,
                    num_resolutions <= 256,
                    r <= num_resolutions,
                decreases num_resolutions - r,
            {
                let mut c: usize = 0;
                while c < num_components
                    invariant
                        reading_ok(*parser.reader, *parser.image, r0, im0),
                        r0 == *old(parser).reader,
                        im0 == *old(parser).image,
                        parser.reader.pos() <= parser.reader.data().len(),
                        (isot as int) < im0.tiles@.len(),
                        im0.cod is Some,
                        tile_states_wf(tile_states@),
                        tile_states@.len() == n_ts,
                        n_ts == if old(tile_states)@.len() == 0 { 1 } else { old(tile_states)@.len() as int },
                        ts_idx < n_ts,
                        forall|t: int| 0 <= t < im0.tiles@.len() && t != isot as int ==> #[trigger] parser.image.tiles@[t] == im0.tiles@[t],
                        tile_fits(im0.tiles@[isot as int], num_components as int, num_resolutions as int) ==> tile_shape_same(
                            im0.tiles@[isot as int],
                            parser.image.tiles@[isot as int],
                        ),
                        num_components == im0.component_count,
                        num_resolutions == im0.cod->Some_0.decomposition_levels + 1,
                        isot as int == packet_tile_index(im0.tiles@.len() as int),
                        l < num_layers <= 0xFFFF,
                        r < num_resolutions <= 256,
                        c <= num_components,
                    decreases num_components - c,
                {
                    let mut ts = tile_states.remove(ts_idx);
                    while ts.components.len() <= c
                        invariant
                            ts.wf(),
                        decreases c + 1 - ts.components@.len(),
                    {
                        ts.components.push(ComponentState { resolutions: Vec::new() });
                    }
                    let mut cs = ts.components.remove(c);
                    let mut outcome: Result<(), JpeglsError> = Ok(());
                    if cs.resolutions.len() <= r {
                        let dims = Self::resolution_dims(&parser.image, ts_idx, c, r);
                        match dims {
                            Some((w, h)) => {
                                while cs.resolutions.len() <= r
                                    invariant
                                        cs.wf(),
                                    decreases r + 1 - cs.resolutions@.len(),
                                {
                                    cs.resolutions.push(ResolutionState::new(w, h));
                                }
                            },
                            None => {
                                outcome = Err(JpeglsError::InvalidData);
                            },
                        }
                    }
                    if outcome.is_ok() {
                        let mut rs = cs.resolutions.remove(r);
                        let ghost im_before = *parser.image;
                        outcome = Self::decode_resolution_packets(parser, &mut rs, &cod, l, r, c, isot);
                        proof {
                            lemma_sizes_kept_trans(im0, im_before, *parser.image);
                            lemma_packets_step(
                                im0,
                                im_before,
                                *parser.image,
                                isot as int,
                                c as int,
                                r as int,
                                num_components as int,
                                num_resolutions as int,
                            );
                        }
                        cs.resolutions.insert(r, rs);
                    }
                    ts.components.insert(c, cs);
                    tile_states.insert(ts_idx, ts);
                    if outcome.is_err() {
                        return Err(JpeglsError::InvalidData);
                    }
                    c = c + 1;
                }
                r = r + 1;
            }
            l = l + 1;
        }
        Ok(())
    }

    /// The size of level `r` of component `c` of tile `t` of `image`, if it has one.
    fn resolution_dims(image: &J2kImage, t: usize, c: usize, r: usize) -> (d: Option<(u32, u32)>)
        ensures
            d matches Some((w, h)) ==> {
                &&& t < image.tiles@.len()
                &&& c < image.tiles@[t as int].components@.len()
                &&& r < image.tiles@[t as int].components@[c as int].resolutions@.len()
                &&& w == image.tiles@[t as int].components@[c as int].resolutions@[r as int].width
                &&& h == image.tiles@[t as int].components@[c as int].resolutions@[r as int].height
            },
            d is None ==> !(t < image.tiles@.len() && c < image.tiles@[t as int].components@.len() && r
                < image.tiles@[t as int].components@[c as int].resolutions@.len()),
    {
        if t < image.tiles.len() && c < image.tiles[t].components.len() && r < image.tiles[t].components[c].resolutions.len() {
            let res = &image.tiles[t].components[c].resolutions[r];
            Some((res.width, res.height))
        } else {
            None
        }
    }

    /// Gives tile `isot` its geometry (see the tile-component and resolution sizes of
    /// Annex B), then reads its packets. The tile-part length and the HT flag are not used
    /// here.
    pub fn decode_tile_data(
        parser: &mut J2kParser,
        _len: u32,
        isot: u16,
        _is_htj2k: bool,
        tile_states: &mut Vec<TileState>,
    ) -> (r: Result<(), JpeglsError>)
        requires
            old(parser).reader.wf(),
            old(parser).reader.pos() <= old(parser).reader.data().len(),
            tile_states_wf(old(tile_states)@),
        ensures
            final(parser).reader.wf(),
            final(parser).reader.same_but_pos(old(parser).reader),
            old(parser).reader.pos() <= final(parser).reader.pos(),
            r is Ok ==> final(parser).reader.pos() <= final(parser).reader.data().len(),
            tile_states_wf(final(tile_states)@),
            r is Err ==> r == Err::<(), JpeglsError>(JpeglsError::InvalidData),
            !geometry_defined(*old(parser).image) ==> r is Err && *final(parser).image == *old(parser).image,
            geometry_defined(*old(parser).image) ==> {
                let im = *old(parser).image;
                let nres = im.cod->Some_0.decomposition_levels + 1;
                let tile = final(parser).image.tiles@[isot as int];
                &&& same_header(*final(parser).image, im)
                &&& final(parser).image.tiles@.len() > isot
                &&& final(parser).image.tiles@.len() >= im.tiles@.len()
                &&& tile.components@.len() >= im.component_count
                &&& forall|c: int|
                    0 <= c < im.component_count ==> component_sized(#[trigger] tile.components@[c], im, isot as int, c, nres)
            },
            geometry_defined(*old(parser).image) && fresh_tile(*old(parser).image, isot as int) ==> {
                let im = *old(parser).image;
                let tile = final(parser).image.tiles@[isot as int];
                &&& tile.components@.len() == im.component_count
                &&& forall|c: int|
                    0 <= c < im.component_count ==> (#[trigger] tile.components@[c]).resolutions@.len()
                        == im.cod->Some_0.decomposition_levels + 1
            },
    {
        match init_tile_geometry(parser, isot) {
            Ok(()) => {},
            Err(e) => {
                return Err(e);
            },
        }
        let ghost im1 = *parser.image;
        let outcome = Self::decode_packets(parser, tile_states);
        proof {
            let im = *old(parser).image;
            let nres = im.cod->Some_0.decomposition_levels + 1;
            let t1 = im1.tiles@[isot as int];
            let t2 = parser.image.tiles@[isot as int];
            assert(tile_sizes_kept(t1, t2));
            if packet_tile_index(im1.tiles@.len() as int) == isot as int {
                assert(tile_fits(t1, im1.component_count as int, im1.cod->Some_0.decomposition_levels + 1)) by {
                    assert forall|c: int| 0 <= c < im1.component_count implies (#[trigger] t1.components@[c]).resolutions@.len()
                        >= im1.cod->Some_0.decomposition_levels + 1 by {
                        assert(component_ok(t1.components@[c], im, isot as int, c, nres));
                    }
                }
                assert(tile_shape_same(t1, t2));
            } else {
                assert(t2 == t1);
            }
            assert forall|c: int| 0 <= c < im.component_count implies component_sized(
                #[trigger] t2.components@[c],
                im,
                isot as int,
                c,
                nres,
            ) by {
                assert(component_ok(t1.components@[c], im, isot as int, c, nres));
                assert(component_sizes_kept(t1.components@[c], t2.components@[c]));
                lemma_component_sized_kept(t1.components@[c], t2.components@[c], im, isot as int, c, nres);
            }
        }
        outcome
    }

    /// A decoder reading the codestream (or JP2 file) of `reader`.
    pub fn new(reader: &'b mut JpegStreamReader<'a>) -> (r: Self)
        ensures
            *r.parser.reader == *old(reader),
            *final(reader) == *final(r.parser.reader),
            r.parser.image.is_empty_image(),
            r.tile_states@.len() == 0,
    {
        Self { parser: J2kParser::new(reader), tile_states: Vec::new() }
    }

    /// Scans the data byte by byte for the next SOT or EOC marker; running out of data
    /// is `InvalidData`.
    fn find_next_marker(parser: &mut J2kParser) -> (r: Result<JpegMarkerCode, JpeglsError>)
        ensures
            final(parser).reader.same_but_pos(old(parser).reader),
            *final(parser).image == *old(parser).image,
            match marker_scan(old(parser).reader.data(), old(parser).reader.pos()) {
                Some((sot, q)) => r == Ok::<JpegMarkerCode, JpeglsError>(
                    if sot { JpegMarkerCode::StartOfTile } else { JpegMarkerCode::EndOfImage },
                ) && final(parser).reader.pos() == q,
                None => r == Err::<JpegMarkerCode, JpeglsError>(JpeglsError::InvalidData),
            },
    {
        let ghost d = parser.reader.data();
        loop
            invariant
                parser.reader.same_but_pos(old(parser).reader),
                *parser.image == *old(parser).image,
                d == old(parser).reader.data(),
                0 <= parser.reader.pos(),
                marker_scan(d, old(parser).reader.pos()) == marker_scan(d, parser.reader.pos()),
            decreases d.len() - parser.reader.pos(),
        {
            let ghost p = parser.reader.pos();
            match parser.reader.read_u8() {
                Ok(b) => {
                    if b == 0xFF {
                        let b2 = match parser.reader.read_u8() {
                            Ok(v) => v,
                            Err(_) => {
                                return Err(JpeglsError::InvalidData);
                            },
                        };
                        if b2 == 0x90 {
                            return Ok(JpegMarkerCode::StartOfTile);
                        } else if b2 == 0xD9 {
                            return Ok(JpegMarkerCode::EndOfImage);
                        }
                    }
                },
                Err(_) => {
                    return Err(JpeglsError::InvalidData);
                },
            }
        }
    }

    /// Decodes tile-part after tile-part from marker `marker`: each SOT starts a tile-part
    /// header and its data; the loop ends at EOC, at any other marker, or when no data is
    /// left after a tile-part.
    fn decode_tiles_loop(
        parser: &mut J2kParser,
        marker: JpegMarkerCode,
        is_htj2k: bool,
        tile_states: &mut Vec<TileState>,
    ) -> (r: Result<(), JpeglsError>)
        requires
            old(parser).reader.wf(),
            tile_states_wf(old(tile_states)@),
        ensures
            final(parser).reader.wf(),
            final(parser).reader.same_but_pos(old(parser).reader),
            tile_states_wf(final(tile_states)@),
            r is Err ==> r == Err::<(), JpeglsError>(JpeglsError::InvalidData),
            marker != JpegMarkerCode::StartOfTile ==> r is Ok && *final(parser).image == *old(parser).image
                && final(parser).reader.pos() == old(parser).reader.pos(),
    {
        let mut current = marker;
        loop
            invariant
                parser.reader.wf(),
                parser.reader.same_but_pos(old(parser).reader),
                tile_states_wf(tile_states@),
                marker != JpegMarkerCode::StartOfTile ==> current == marker && *parser.image == *old(parser).image
                    && parser.reader.pos() == old(parser).reader.pos(),
            decreases read_room(parser.reader.pos(), parser.reader.data().len() as int),
        {
            if current == JpegMarkerCode::EndOfImage {
                break;
            }
            if current == JpegMarkerCode::StartOfTile {
                let ghost before = parser.reader.pos();
                let (psot, isot) = match parser.parse_tile_part_header() {
                    Ok(v) => v,
                    Err(e) => {
                        return Err(e);
                    },
                };
                match Self::decode_tile_data(parser, psot, isot, is_htj2k, tile_states) {
                    Ok(()) => {},
                    Err(e) => {
                        return Err(e);
                    },
                }
                if parser.reader.remaining_data().len() == 0 {
                    break;
                }
                let ghost mid = parser.reader.pos();
                current = match Self::find_next_marker(parser) {
                    Ok(m) => m,
                    Err(e) => {
                        return Err(e);
                    },
                };
                proof {
                    lemma_marker_scan_moves(parser.reader.data(), mid);
                }
            } else {
                break;
            }
        }
        Ok(())
    }

    /// Whether the capabilities (CAP) announce HT block coding (bit 14 of Pcap).
    fn uses_ht(image: &J2kImage) -> (r: bool)
        ensures
            r == (image.cap matches Some(c) && c.pcap & 0x4000 != 0),
    {
        match &image.cap {
            Some(c) => c.pcap & 0x4000 != 0,
            None => false,
        }
    }

    /// Decodes the image: when the data left is a JP2 file, its codestream box (and its
    /// ICC profile, kept with the image) is read; else the data is the codestream. The
    /// main header comes first, then the tile-parts.
    pub fn decode(&mut self) -> (r: Result<&J2kImage, JpeglsError>)
        requires
            old(self).parser.reader.wf(),
            old(self).parser.reader.pos() <= old(self).parser.reader.data().len(),
            tile_states_wf(old(self).tile_states@),
        ensures
            r is Err ==> r == Err::<&J2kImage, JpeglsError>(JpeglsError::InvalidData),
            ({
                let d = old(self).parser.reader.data();
                let p = old(self).parser.reader.pos();
                let rest = d.subrange(p, d.len() as int);
                (rest.len() < 12 || rest.subrange(0, 12) != jp2_signature()) ==> (r is Ok ==> p + 2 <= d.len()
                    && be_u16_at(d, p) == 0xFF4F && crate::jpeg2000::parser::segments_end(d, p + 2, true) is Some)
            }),
    {
        let remaining = self.parser.reader.remaining_data();
        let codestream = {
            let mut jp2 = Jp2Reader::new(remaining);
            match jp2.find_codestream() {
                Ok(cs) => cs,
                Err(_) => None,
            }
        };
        let icc_profile = {
            let mut jp2 = Jp2Reader::new(remaining);
            match jp2.find_icc_profile() {
                Ok(icc) => icc,
                Err(_) => None,
            }
        };
        match codestream {
            Some(cs) => {
                let mut sub_reader = JpegStreamReader::new(cs);
                let mut sub_parser = J2kParser::new(&mut sub_reader);
                let last_marker = match sub_parser.parse_main_header() {
                    Ok(m) => m,
                    Err(e) => {
                        return Err(e);
                    },
                };
                let is_htj2k = Self::uses_ht(&sub_parser.image);
                match Self::decode_tiles_loop(&mut sub_parser, last_marker, is_htj2k, &mut self.tile_states) {
                    Ok(()) => {},
                    Err(e) => {
                        return Err(e);
                    },
                }
                let mut image = sub_parser.image;
                image.icc_profile = icc_profile;
                self.parser.image = image;
            },
            None => {
                let last_marker = match self.parser.parse_main_header() {
                    Ok(m) => m,
                    Err(e) => {
                        return Err(e);
                    },
                };
                let is_htj2k = Self::uses_ht(&self.parser.image);
                match Self::decode_tiles_loop(&mut self.parser, last_marker, is_htj2k, &mut self.tile_states) {
                    Ok(()) => {},
                    Err(e) => {
                        return Err(e);
                    },
                }
            },
        }
        Ok(&*self.parser.image)
    }
}

} // verus!
