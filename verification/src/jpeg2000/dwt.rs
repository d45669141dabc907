//! The reversible 5/3 discrete wavelet transform of JPEG 2000, by lifting.
use vstd::prelude::*;

verus! {

/// The values of `s` as integers.
pub open spec fn ints(s: Seq<i32>) -> Seq<int> {
    s.map_values(|v: i32| v as int)
}

/// Every value of `s` lies within `-b..=b`.
pub open spec fn bounded(s: Seq<i32>, b: int) -> bool {
    forall|i: int| 0 <= i < s.len() ==> -b <= #[trigger] s[i] <= b
}

/// The left neighbour of sample `i`, mirrored at the start.
pub open spec fn left_of(x: Seq<int>, i: int) -> int {
    if i > 0 { x[i - 1] } else { x[i + 1] }
}

/// The right neighbour of sample `i`, mirrored at the end.
pub open spec fn right_of(x: Seq<int>, i: int) -> int {
    if i + 1 < x.len() { x[i + 1] } else { x[i - 1] }
}

/// The prediction step: each odd sample less the floor of the mean of its neighbours.
pub open spec fn predicted53(x: Seq<int>) -> Seq<int> {
    Seq::new(x.len(), |i: int| if i % 2 == 1 { x[i] - (x[i - 1] + right_of(x, i)) / 2 } else { x[i] })
}

/// The forward 5/3 lifting of a signal of two or more samples: after the prediction
/// step, each even sample plus the floor of a quarter of its neighbours' sum, plus two.
/// Even positions hold the low-pass, odd positions the high-pass coefficients.
pub open spec fn lifted53(x: Seq<int>) -> Seq<int> {
    let d = predicted53(x);
    Seq::new(x.len(), |i: int| if i % 2 == 0 { d[i] + (left_of(d, i) + right_of(d, i) + 2) / 4 } else { d[i] })
}

/// The even positions of `x`.
pub open spec fn low_part(x: Seq<int>) -> Seq<int> {
    Seq::new(((x.len() + 1) / 2) as nat, |k: int| x[2 * k])
}

/// The odd positions of `x`.
pub open spec fn high_part(x: Seq<int>) -> Seq<int> {
    Seq::new((x.len() / 2) as nat, |k: int| x[2 * k + 1])
}

/// `n` samples that interleave `l` at even and `h` at odd positions, 0 past their ends.
pub open spec fn interleaved(l: Seq<int>, h: Seq<int>, n: nat) -> Seq<int> {
    Seq::new(
        n,
        |i: int|
            if i % 2 == 0 {
                if i / 2 < l.len() { l[i / 2] } else { 0 }
            } else {
                if i / 2 < h.len() { h[i / 2] } else { 0 }
            },
    )
}

/// The undone update step: each even sample less the floor of a quarter of its neighbours' sum, plus two.
pub open spec fn unupdated53(y: Seq<int>) -> Seq<int> {
    Seq::new(y.len(), |i: int| if i % 2 == 0 { y[i] - (left_of(y, i) + right_of(y, i) + 2) / 4 } else { y[i] })
}

/// The inverse 5/3 lifting of two or more interleaved coefficients: the update step undone,
/// then each odd sample plus the floor of the mean of its neighbours (its left
/// neighbour at the end).
pub open spec fn unlifted53(y: Seq<int>) -> Seq<int> {
    let e = unupdated53(y);
    Seq::new(
        y.len(),
        |i: int|
            if i % 2 == 1 {
                if i + 1 < y.len() { e[i] + (e[i - 1] + e[i + 1]) / 2 } else { e[i] + e[i - 1] }
            } else {
                e[i]
            },
    )
}

/// Perfect reconstruction: the inverse 5/3 transform of the low-pass and high-pass
/// coefficients of a signal gives the signal back, exactly.
pub proof fn lemma_dwt53_perfect_reconstruction(x: Seq<int>)
    requires
        x.len() >= 2,
    ensures
        unlifted53(interleaved(low_part(lifted53(x)), high_part(lifted53(x)), x.len())) == x,
{
    let n = x.len();
    let lf = lifted53(x);
    let y = interleaved(low_part(lf), high_part(lf), n);
    assert(y =~= lf) by {
        assert forall|i: int| 0 <= i < n implies y[i] == lf[i] by {
            if i % 2 == 0 {
                assert(2 * (i / 2) == i);
            } else {
                assert(2 * (i / 2) + 1 == i);
            }
        }
    }
    let d = predicted53(x);
    let e = unupdated53(y);
    assert forall|i: int| 0 <= i < n implies e[i] == d[i] by {
        if i % 2 == 0 {
            if i > 0 {
                assert((i - 1) % 2 == 1);
            } else {
                assert((i + 1) % 2 == 1);
            }
            if i + 1 < n {
                assert((i + 1) % 2 == 1);
            } else {
                assert((i - 1) % 2 == 1);
            }
        }
    }
    let r = unlifted53(y);
    assert forall|i: int| 0 <= i < n implies r[i] == x[i] by {
        if i % 2 == 1 {
            assert((i - 1) % 2 == 0);
            if i + 1 < n {
                assert((i + 1) % 2 == 0);
            } else {
                assert((x[i - 1] + x[i - 1]) / 2 == x[i - 1]);
            }
        }
    }
    assert(r =~= x);
}

proof fn lemma_shr_floor(v: i32)
    ensures
        (v >> 1i32) as int == (v as int) / 2,
        (v >> 2i32) as int == (v as int) / 4,
{
    crate::bits::lemma_i32_halves(v);
}


/// Whether `v` fits in an `i32`.
pub open spec fn in_i32(v: int) -> bool {
    i32::MIN <= v <= i32::MAX
}

/// Every sum the forward lifting of `x` forms, and every sample it gives, fits in an `i32`.
pub open spec fn forward53_fits(x: Seq<int>) -> bool {
    let d = predicted53(x);
    &&& forall|i: int|
        0 <= i < x.len() && i % 2 == 1 ==> in_i32(x[i - 1] + #[trigger] right_of(x, i)) && in_i32(d[i])
    &&& forall|i: int|
        0 <= i < x.len() && i % 2 == 0 ==> in_i32(#[trigger] left_of(d, i) + right_of(d, i)) && in_i32(
            left_of(d, i) + right_of(d, i) + 2,
        ) && in_i32(lifted53(x)[i])
}

/// Two or more samples within `±2^28` lift without leaving `i32`.
pub proof fn lemma_bounded_forward53_fits(s: Seq<i32>)
    requires
        bounded(s, 0x1000_0000),
        s.len() >= 2,
    ensures
        forward53_fits(ints(s)),
{
    let x = ints(s);
    let d = predicted53(x);
    let b = 0x1000_0000int;
    assert forall|j: int| 0 <= j < x.len() implies -b <= #[trigger] x[j] <= b by {
        assert(-b <= s[j] <= b);
    }
    assert forall|j: int| 0 <= j < x.len() implies -2 * b - 1 <= #[trigger] d[j] <= 2 * b + 1 by {
        if j % 2 == 1 {
            assert(-b <= x[j - 1] <= b);
            assert(-b <= right_of(x, j) <= b);
        }
    }
    assert forall|i: int| 0 <= i < x.len() && i % 2 == 1 implies in_i32(x[i - 1] + #[trigger] right_of(x, i))
        && in_i32(d[i]) by {
        assert(-b <= x[i - 1] <= b);
        assert(-b <= right_of(x, i) <= b);
    }
    assert forall|i: int| 0 <= i < x.len() && i % 2 == 0 implies in_i32(#[trigger] left_of(d, i) + right_of(d, i))
        && in_i32(left_of(d, i) + right_of(d, i) + 2) && in_i32(lifted53(x)[i]) by {
        assert(-2 * b - 1 <= left_of(d, i) <= 2 * b + 1);
        assert(-2 * b - 1 <= right_of(d, i) <= 2 * b + 1);
        assert(-b <= x[i] <= b);
    }
}

/// Every sum the inverse lifting of `y` forms, and every sample it gives, fits in an `i32`.
pub open spec fn unlift53_fits(y: Seq<int>) -> bool {
    let e = unupdated53(y);
    &&& forall|i: int|
        0 <= i < y.len() && i % 2 == 0 ==> in_i32(#[trigger] left_of(y, i) + right_of(y, i)) && in_i32(
            left_of(y, i) + right_of(y, i) + 2,
        ) && in_i32(e[i])
    &&& forall|i: int|
        0 <= i < y.len() && i % 2 == 1 ==> (if i + 1 < y.len() {
            in_i32(e[i - 1] + e[i + 1])
        } else {
            in_i32(e[i] + e[i - 1])
        }) && in_i32(#[trigger] unlifted53(y)[i])
}

/// The inverse 5/3 transform of `n` samples from low-pass `l` and high-pass `h`;
/// `out` is what the output held before (one sample and no low-pass leave it).
pub open spec fn inverse53(l: Seq<int>, h: Seq<int>, n: nat, out: Seq<int>) -> Seq<int> {
    if n == 0 {
        out
    } else if n == 1 {
        if l.len() > 0 { out.update(0, l[0]) } else { out }
    } else {
        unlifted53(interleaved(l, h, n))
    }
}

/// The inverse transform of `n` samples from `l` and `h` stays within an `i32` throughout.
pub open spec fn inverse53_fits(l: Seq<int>, h: Seq<int>, n: nat) -> bool {
    n >= 2 ==> unlift53_fits(interleaved(l, h, n))
}

/// Zeros.
pub open spec fn zeros(n: nat) -> Seq<int> {
    Seq::new(n, |i: int| 0)
}

/// Column `x` of `n` rows of a subband `src` of `sw` columns, row by row; 0 past its end.
pub open spec fn column(src: Seq<i32>, sw: int, x: int, n: nat) -> Seq<int> {
    Seq::new(n, |y: int| if 0 <= y * sw + x < src.len() { src[y * sw + x] as int } else { 0 })
}

/// The vertical pass of the 2D inverse: sample `(x, y)` of a `w` by `h` image whose left
/// columns come from the LL and LH subbands and right columns from the HL and HH subbands.
pub open spec fn vertical53(
    ll: Seq<i32>,
    hl: Seq<i32>,
    lh: Seq<i32>,
    hh: Seq<i32>,
    w: nat,
    h: nat,
    x: int,
    y: int,
) -> int {
    let ll_w = (w + 1) / 2;
    let hl_w = w / 2;
    let ll_h = (h + 1) / 2;
    let lh_h = h / 2;
    if x < ll_w {
        inverse53(column(ll, ll_w as int, x, ll_h), column(lh, ll_w as int, x, lh_h), h, zeros(h))[y]
    } else {
        inverse53(column(hl, hl_w as int, x - ll_w, ll_h), column(hh, hl_w as int, x - ll_w, lh_h), h, zeros(h))[y]
    }
}

/// Row `y` of the vertical pass, left (low-pass) part.
pub open spec fn row_low53(ll: Seq<i32>, hl: Seq<i32>, lh: Seq<i32>, hh: Seq<i32>, w: nat, h: nat, y: int) -> Seq<int> {
    Seq::new((w + 1) / 2, |x: int| vertical53(ll, hl, lh, hh, w, h, x, y))
}

/// Row `y` of the vertical pass, right (high-pass) part.
pub open spec fn row_high53(ll: Seq<i32>, hl: Seq<i32>, lh: Seq<i32>, hh: Seq<i32>, w: nat, h: nat, y: int) -> Seq<int> {
    Seq::new(w / 2, |x: int| vertical53(ll, hl, lh, hh, w, h, (w + 1) / 2 + x, y))
}

/// Sample `(x, y)` of the 2D inverse 5/3 transform: a vertical pass on each column, then a
/// horizontal pass on each row.
pub open spec fn inverse53_2d(ll: Seq<i32>, hl: Seq<i32>, lh: Seq<i32>, hh: Seq<i32>, w: nat, h: nat, x: int, y: int) -> int {
    inverse53(row_low53(ll, hl, lh, hh, w, h, y), row_high53(ll, hl, lh, hh, w, h, y), w, zeros(w))[x]
}

/// The 2D inverse stays within an `i32` throughout.
pub open spec fn inverse53_2d_fits(ll: Seq<i32>, hl: Seq<i32>, lh: Seq<i32>, hh: Seq<i32>, w: nat, h: nat) -> bool {
    let ll_w = (w + 1) / 2;
    let hl_w = w / 2;
    let ll_h = (h + 1) / 2;
    let lh_h = h / 2;
    &&& forall|x: int|
        0 <= x < ll_w ==> #[trigger] inverse53_fits(column(ll, ll_w as int, x, ll_h), column(lh, ll_w as int, x, lh_h), h)
    &&& forall|x: int|
        0 <= x < hl_w ==> #[trigger] inverse53_fits(column(hl, hl_w as int, x, ll_h), column(hh, hl_w as int, x, lh_h), h)
    &&& forall|y: int|
        0 <= y < h ==> #[trigger] inverse53_fits(row_low53(ll, hl, lh, hh, w, h, y), row_high53(ll, hl, lh, hh, w, h, y), w)
}

/// Row `y` of a `w`-wide image, row by row.
pub open spec fn image_row(img: Seq<int>, w: nat, y: int) -> Seq<int> {
    Seq::new(w, |x: int| img[y * w + x])
}

/// The horizontal pass of the 2D forward 5/3 transform at `(x, y)`: each row lifted, its
/// low-pass coefficients on the left, its high-pass ones on the right.
pub open spec fn split_rows53(img: Seq<int>, w: nat, x: int, y: int) -> int {
    let r = lifted53(image_row(img, w, y));
    let ll_w = (w + 1) / 2;
    if x < ll_w { r[2 * x] } else { r[2 * (x - ll_w) + 1] }
}

/// Column `x` of the horizontal pass.
pub open spec fn split_column53(img: Seq<int>, w: nat, h: nat, x: int) -> Seq<int> {
    Seq::new(h, |y: int| split_rows53(img, w, x, y))
}

/// Sample `(x, y)` of the 2D forward 5/3 transform: the horizontal pass, then each column
/// lifted, its low-pass coefficients on top, its high-pass ones below.
pub open spec fn forward53_2d(img: Seq<int>, w: nat, h: nat, x: int, y: int) -> int {
    let v = lifted53(split_column53(img, w, h, x));
    let ll_h = (h + 1) / 2;
    if y < ll_h { v[2 * y] } else { v[2 * (y - ll_h) + 1] }
}

/// `ll`, `hl`, `lh` and `hh` are the four subbands of the 2D forward transform of the `w`
/// by `h` image `img`.
pub open spec fn subbands_of53(
    img: Seq<int>,
    w: nat,
    h: nat,
    ll: Seq<i32>,
    hl: Seq<i32>,
    lh: Seq<i32>,
    hh: Seq<i32>,
) -> bool {
    let ll_w = (w + 1) / 2;
    let hl_w = w / 2;
    let ll_h = (h + 1) / 2;
    let lh_h = h / 2;
    &&& ll.len() == ll_w * ll_h
    &&& hl.len() == hl_w * ll_h
    &&& lh.len() == ll_w * lh_h
    &&& hh.len() == hl_w * lh_h
    &&& forall|x: int, y: int|
        0 <= x < ll_w && 0 <= y < ll_h ==> #[trigger] ll[y * ll_w + x] == forward53_2d(img, w, h, x, y)
    &&& forall|x: int, y: int|
        0 <= x < ll_w && 0 <= y < lh_h ==> #[trigger] lh[y * ll_w + x] == forward53_2d(img, w, h, x, ll_h + y)
    &&& forall|x: int, y: int|
        0 <= x < hl_w && 0 <= y < ll_h ==> #[trigger] hl[y * hl_w + x] == forward53_2d(img, w, h, ll_w + x, y)
    &&& forall|x: int, y: int|
        0 <= x < hl_w && 0 <= y < lh_h ==> #[trigger] hh[y * hl_w + x] == forward53_2d(img, w, h, ll_w + x, ll_h + y)
}

/// The vertical pass of the 2D inverse gives back the horizontal pass of the forward transform.
proof fn lemma_vertical_inverts(
    img: Seq<int>,
    w: nat,
    h: nat,
    ll: Seq<i32>,
    hl: Seq<i32>,
    lh: Seq<i32>,
    hh: Seq<i32>,
    x: int,
    y: int,
)
    requires
        w >= 2,
        h >= 2,
        subbands_of53(img, w, h, ll, hl, lh, hh),
        0 <= x < w,
        0 <= y < h,
    ensures
        vertical53(ll, hl, lh, hh, w, h, x, y) == split_rows53(img, w, x, y),
{
    let ll_w = (w + 1) / 2;
    let hl_w = w / 2;
    let ll_h = (h + 1) / 2;
    let lh_h = h / 2;
    let c = split_column53(img, w, h, x);
    let v = lifted53(c);
    lemma_dwt53_perfect_reconstruction(c);
    if x < ll_w {
        let lo = column(ll, ll_w as int, x, ll_h);
        let hi = column(lh, ll_w as int, x, lh_h);
        assert forall|k: int| 0 <= k < ll_h implies #[trigger] lo[k] == low_part(v)[k] by {
            lemma_grid_index(x, k, ll_w as int, ll_h as int);
        }
        assert forall|k: int| 0 <= k < lh_h implies #[trigger] hi[k] == high_part(v)[k] by {
            lemma_grid_index(x, k, ll_w as int, lh_h as int);
        }
        assert(lo =~= low_part(v));
        assert(hi =~= high_part(v));
    } else {
        let xr = x - ll_w;
        let lo = column(hl, hl_w as int, xr, ll_h);
        let hi = column(hh, hl_w as int, xr, lh_h);
        assert forall|k: int| 0 <= k < ll_h implies #[trigger] lo[k] == low_part(v)[k] by {
            lemma_grid_index(xr, k, hl_w as int, ll_h as int);
        }
        assert forall|k: int| 0 <= k < lh_h implies #[trigger] hi[k] == high_part(v)[k] by {
            lemma_grid_index(xr, k, hl_w as int, lh_h as int);
        }
        assert(lo =~= low_part(v));
        assert(hi =~= high_part(v));
    }
}

/// 2D perfect reconstruction: the 2D inverse 5/3 transform of the four subbands of the 2D
/// forward transform of an image of at least 2 by 2 samples gives the image back, exactly.
pub proof fn lemma_dwt53_2d_perfect_reconstruction(
    img: Seq<int>,
    w: nat,
    h: nat,
    ll: Seq<i32>,
    hl: Seq<i32>,
    lh: Seq<i32>,
    hh: Seq<i32>,
)
    requires
        w >= 2,
        h >= 2,
        img.len() == w * h,
        subbands_of53(img, w, h, ll, hl, lh, hh),
    ensures
        forall|x: int, y: int| 0 <= x < w && 0 <= y < h ==> #[trigger] inverse53_2d(ll, hl, lh, hh, w, h, x, y) == img[y * w + x],
{
    assert forall|x: int, y: int| 0 <= x < w && 0 <= y < h implies #[trigger] inverse53_2d(ll, hl, lh, hh, w, h, x, y)
        == img[y * w + x] by {
        let ll_w = (w + 1) / 2;
        let r = lifted53(image_row(img, w, y));
        lemma_dwt53_perfect_reconstruction(image_row(img, w, y));
        let lo = row_low53(ll, hl, lh, hh, w, h, y);
        let hi = row_high53(ll, hl, lh, hh, w, h, y);
        assert forall|k: int| 0 <= k < ll_w implies #[trigger] lo[k] == low_part(r)[k] by {
            lemma_vertical_inverts(img, w, h, ll, hl, lh, hh, k, y);
        }
        assert forall|k: int| 0 <= k < w / 2 implies #[trigger] hi[k] == high_part(r)[k] by {
            lemma_vertical_inverts(img, w, h, ll, hl, lh, hh, ll_w + k, y);
        }
        assert(lo =~= low_part(r));
        assert(hi =~= high_part(r));
    }
}

/// The reversible 5/3 wavelet transform.
pub struct Dwt53;

impl Dwt53 {
    /// Forward 1D transform: the low-pass coefficients (even positions of the lifted
    /// signal) go to `out_l`, the high-pass ones (odd positions) to `out_h`, as far as each has room.
    pub fn forward(signal: &[i32], out_l: &mut [i32], out_h: &mut [i32])
        requires
            signal@.len() >= 2 ==> forward53_fits(ints(signal@)),
        ensures
            final(out_l)@.len() == old(out_l)@.len(),
            final(out_h)@.len() == old(out_h)@.len(),
            signal@.len() == 0 ==> final(out_l)@ == old(out_l)@ && final(out_h)@ == old(out_h)@,
            signal@.len() == 1 ==> final(out_h)@ == old(out_h)@ && final(out_l)@ == if old(out_l)@.len() > 0 {
                old(out_l)@.update(0, signal@[0])
            } else {
                old(out_l)@
            },
            signal@.len() >= 2 ==> forall|k: int|
                0 <= k < old(out_l)@.len() ==> (#[trigger] final(out_l)@[k]) as int == if k < (signal@.len() + 1)
                    / 2 {
                    lifted53(ints(signal@))[2 * k]
                } else {
                    old(out_l)@[k] as int
                },
            signal@.len() >= 2 ==> forall|k: int|
                0 <= k < old(out_h)@.len() ==> (#[trigger] final(out_h)@[k]) as int == if k < signal@.len() / 2 {
                    lifted53(ints(signal@))[2 * k + 1]
                } else {
                    old(out_h)@[k] as int
                },
    {
        let len = signal.len();
        if len == 0 {
            return;
        }
        if len == 1 {
            if out_l.len() > 0 {
                out_l[0] = signal[0];
            }
            return;
        }
        let ghost xs = ints(signal@);
        let mut x: Vec<i32> = Vec::new();
        let mut i: usize = 0;
        while i < len
            invariant
                len == signal@.len(),
                i <= len,
                x@.len() == i,
                forall|j: int| 0 <= j < i ==> #[trigger] x@[j] == signal@[j],
            decreases len - i,
        {
            x.push(signal[i]);
            i = i + 1;
        }
        let ghost d = predicted53(xs);
        i = 0;
        while i < len
            invariant
                len == signal@.len(),
                len >= 2,
                xs == ints(signal@),
                d == predicted53(xs),
                forward53_fits(xs),
                i <= len,
                x@.len() == len,
                forall|j: int| 0 <= j < len ==> (#[trigger] x@[j]) as int == if j < i { d[j] } else { xs[j] },
            decreases len - i,
        {
            if i % 2 == 1 {
                let left = x[i - 1];
                let right = if i + 1 < len { x[i + 1] } else { x[i - 1] };
                assert(right_of(xs, i as int) == right as int);
                let sum = left + right;
                proof {
                    lemma_shr_floor(sum);
                }
                let v = x[i] - (sum >> 1i32);
                x.set(i, v);
            }
            i = i + 1;
        }
        let ghost lf = lifted53(xs);
        i = 0;
        while i < len
            invariant
                len == signal@.len(),
                len >= 2,
                xs == ints(signal@),
                d == predicted53(xs),
                lf == lifted53(xs),
                forward53_fits(xs),
                i <= len,
                x@.len() == len,
                forall|j: int| 0 <= j < len ==> (#[trigger] x@[j]) as int == if j < i { lf[j] } else { d[j] },
            decreases len - i,
        {
            if i % 2 == 0 {
                let left = if i > 0 { x[i - 1] } else { x[i + 1] };
                let right = if i + 1 < len { x[i + 1] } else { x[i - 1] };
                assert(left_of(d, i as int) == left as int);
                assert(right_of(d, i as int) == right as int);
                let sum = left + right + 2;
                proof {
                    lemma_shr_floor(sum);
                }
                let v = x[i] + (sum >> 2i32);
                x.set(i, v);
            }
            i = i + 1;
        }
        i = 0;
        while i < len
            invariant
                len == signal@.len(),
                len >= 2,
                lf == lifted53(xs),
                xs == ints(signal@),
                i <= len,
                x@.len() == len,
                forall|j: int| 0 <= j < len ==> (#[trigger] x@[j]) as int == lf[j],
                out_l@.len() == old(out_l)@.len(),
                out_h@.len() == old(out_h)@.len(),
                forall|k: int|
                    0 <= k < out_l@.len() ==> (#[trigger] out_l@[k]) as int == if k < (i + 1) / 2 {
                        lf[2 * k]
                    } else {
                        old(out_l)@[k] as int
                    },
                forall|k: int|
                    0 <= k < out_h@.len() ==> (#[trigger] out_h@[k]) as int == if k < i / 2 {
                        lf[2 * k + 1]
                    } else {
                        old(out_h)@[k] as int
                    },
            decreases len - i,
        {
            if i % 2 == 0 {
                if i / 2 < out_l.len() {
                    out_l[i / 2] = x[i];
                }
            } else if i / 2 < out_h.len() {
                out_h[i / 2] = x[i];
            }
            i = i + 1;
        }
    }
}

impl Dwt53 {
    /// Inverse 1D transform of `output.len()` samples from low-pass `in_l` and high-pass `in_h`.
    pub fn inverse(in_l: &[i32], in_h: &[i32], output: &mut [i32])
        requires
            inverse53_fits(ints(in_l@), ints(in_h@), old(output)@.len()),
        ensures
            final(output)@.len() == old(output)@.len(),
            ints(final(output)@) == inverse53(ints(in_l@), ints(in_h@), old(output)@.len(), ints(old(output)@)),
    {
        let len = output.len();
        if len == 0 {
            return;
        }
        if len == 1 {
            if in_l.len() > 0 {
                output[0] = in_l[0];
            }
            proof {
                assert(ints(output@) =~= inverse53(ints(in_l@), ints(in_h@), old(output)@.len(), ints(old(output)@)));
            }
            return;
        }
        let ghost y = interleaved(ints(in_l@), ints(in_h@), len as nat);
        let mut x: Vec<i32> = Vec::new();
        let mut i: usize = 0;
        while i < len
            invariant
                len == old(output)@.len(),
                y == interleaved(ints(in_l@), ints(in_h@), len as nat),
                i <= len,
                x@.len() == i,
                forall|j: int| 0 <= j < i ==> (#[trigger] x@[j]) as int == y[j],
            decreases len - i,
        {
            let v: i32 = if i % 2 == 0 {
                if i / 2 < in_l.len() { in_l[i / 2] } else { 0 }
            } else {
                if i / 2 < in_h.len() { in_h[i / 2] } else { 0 }
            };
            x.push(v);
            i = i + 1;
        }
        let ghost e = unupdated53(y);
        i = 0;
        while i < len
            invariant
                len == old(output)@.len(),
                len >= 2,
                y.len() == len,
                e == unupdated53(y),
                unlift53_fits(y),
                i <= len,
                x@.len() == len,
                forall|j: int| 0 <= j < len ==> (#[trigger] x@[j]) as int == if j < i { e[j] } else { y[j] },
            decreases len - i,
        {
            if i % 2 == 0 {
                let left = if i > 0 { x[i - 1] } else { x[i + 1] };
                let right = if i + 1 < len { x[i + 1] } else { x[i - 1] };
                assert(left_of(y, i as int) == left as int);
                assert(right_of(y, i as int) == right as int);
                let sum = left + right + 2;
                proof {
                    lemma_shr_floor(sum);
                }
                let v = x[i] - (sum >> 2i32);
                x.set(i, v);
            }
            i = i + 1;
        }
        let ghost r = unlifted53(y);
        i = 0;
        while i < len
            invariant
                len == old(output)@.len(),
                len >= 2,
                y.len() == len,
                e == unupdated53(y),
                r == unlifted53(y),
                unlift53_fits(y),
                i <= len,
                x@.len() == len,
                forall|j: int| 0 <= j < len ==> (#[trigger] x@[j]) as int == if j < i { r[j] } else { e[j] },
            decreases len - i,
        {
            if i % 2 == 1 {
                let left = x[i - 1];
                assert((i - 1) % 2 == 0);
                assert(left as int == e[i - 1]);
                assert(in_i32(r[i as int]));
                if i + 1 < len {
                    let right = x[i + 1];
                    let sum = left + right;
                    proof {
                        lemma_shr_floor(sum);
                    }
                    let v = x[i] + (sum >> 1i32);
                    x.set(i, v);
                } else {
                    let v = x[i] + left;
                    x.set(i, v);
                }
            }
            i = i + 1;
        }
        i = 0;
        while i < len
            invariant
                len == old(output)@.len(),
                output@.len() == len,
                r == unlifted53(y),
                r.len() == len,
                i <= len,
                x@.len() == len,
                forall|j: int| 0 <= j < len ==> (#[trigger] x@[j]) as int == r[j],
                forall|j: int| 0 <= j < i ==> (#[trigger] output@[j]) as int == r[j],
            decreases len - i,
        {
            output[i] = x[i];
            i = i + 1;
        }
        proof {
            assert(ints(output@) =~= r);
        }
    }
}

proof fn lemma_grid_index(x: int, y: int, w: int, h: int)
    requires
        0 <= x < w,
        0 <= y < h,
    ensures
        0 <= y * w + x < w * h,
        (y * w + x) / w == y,
        (y * w + x) % w == x,
        y * w + x + 1 <= (y + 1) * w,
{
    assert(0 <= y * w) by (nonlinear_arith)
        requires
            0 <= y,
            0 <= w,
    ;
    assert(y * w + x < w * h) by (nonlinear_arith)
        requires
            0 <= x < w,
            0 <= y < h,
    ;
    assert((y + 1) * w == y * w + w) by (nonlinear_arith);
    vstd::arithmetic::div_mod::lemma_fundamental_div_mod_converse(y * w + x, w, y, x);
}

/// Column `x` of `n` rows of a subband of `sw` columns.
fn gather_column(src: &[i32], sw: usize, x: usize, n: usize) -> (r: Vec<i32>)
    requires
        x < sw,
        n * sw <= usize::MAX,
    ensures
        r@.len() == n,
        ints(r@) == column(src@, sw as int, x as int, n as nat),
{
    let mut col: Vec<i32> = Vec::new();
    let mut y: usize = 0;
    while y < n
        invariant
            x < sw,
            n * sw <= usize::MAX,
            y <= n,
            col@.len() == y,
            forall|j: int| 0 <= j < y ==> (#[trigger] col@[j]) as int == column(src@, sw as int, x as int, n as nat)[j],
        decreases n - y,
    {
        proof {
            lemma_grid_index(x as int, y as int, sw as int, n as int);
            assert(sw * n == n * sw) by (nonlinear_arith);
        }
        let idx = y * sw + x;
        let v: i32 = if idx < src.len() { src[idx] } else { 0 };
        col.push(v);
        y = y + 1;
    }
    proof {
        assert(ints(col@) =~= column(src@, sw as int, x as int, n as nat));
    }
    col
}

fn zero_vec(n: usize) -> (r: Vec<i32>)
    ensures
        r@.len() == n,
        ints(r@) == zeros(n as nat),
{
    let mut v: Vec<i32> = Vec::new();
    let mut k: usize = 0;
    while k < n
        invariant
            k <= n,
            v@.len() == k,
            forall|j: int| 0 <= j < k ==> #[trigger] v@[j] == 0,
        decreases n - k,
    {
        v.push(0);
        k = k + 1;
    }
    proof {
        assert(ints(v@) =~= zeros(n as nat));
    }
    v
}

impl Dwt53 {
    /// Inverse 2D transform of a `width` by `height` image from its four subbands: each
    /// column, then each row, by the inverse 1D transform. The image goes row by row into
    /// the start of `output`.
    pub fn inverse_2d(
        ll: &[i32],
        hl: &[i32],
        lh: &[i32],
        hh: &[i32],
        width: u32,
        height: u32,
        output: &mut [i32],
    )
        requires
            width * height <= usize::MAX,
            width == 0 || height == 0 || old(output)@.len() >= width * height,
            inverse53_2d_fits(ll@, hl@, lh@, hh@, width as nat, height as nat),
        ensures
            final(output)@.len() == old(output)@.len(),
            forall|i: int|
                0 <= i < old(output)@.len() ==> (#[trigger] final(output)@[i]) as int == if i < width * height {
                    inverse53_2d(ll@, hl@, lh@, hh@, width as nat, height as nat, i % (width as int), i / (width as int))
                } else {
                    old(output)@[i] as int
                },
    {
        let w = width as usize;
        let h = height as usize;
        if w == 0 || h == 0 {
            return;
        }
        let ll_w = w / 2 + w % 2;
        let hl_w = w / 2;
        let ll_h = h / 2 + h % 2;
        let lh_h = h / 2;
        let ghost wn = w as nat;
        let ghost hn = h as nat;
        assert(ll_w * ll_h <= w * h) by (nonlinear_arith)
            requires
                ll_w <= w,
                ll_h <= h,
        ;
        assert(hl_w * ll_h <= w * h) by (nonlinear_arith)
            requires
                hl_w <= w,
                ll_h <= h,
        ;
        assert(ll_w * lh_h <= w * h) by (nonlinear_arith)
            requires
                ll_w <= w,
                lh_h <= h,
        ;
        assert(hl_w * lh_h <= w * h) by (nonlinear_arith)
            requires
                hl_w <= w,
                lh_h <= h,
        ;
        let mut cols: Vec<Vec<i32>> = Vec::new();
        let mut x: usize = 0;
        while x < w
            invariant
                w == width,
                h == height,
                wn == w,
                hn == h,
                w * h <= usize::MAX,
                ll_w == (wn + 1) / 2,
                hl_w == wn / 2,
                ll_h == (hn + 1) / 2,
                lh_h == hn / 2,
                ll_w * ll_h <= w * h,
                hl_w * ll_h <= w * h,
                ll_w * lh_h <= w * h,
                hl_w * lh_h <= w * h,
                inverse53_2d_fits(ll@, hl@, lh@, hh@, wn, hn),
                x <= w,
                cols@.len() == x,
                forall|c: int|
                    0 <= c < x ==> (#[trigger] cols@[c])@.len() == h && forall|yy: int|
                        0 <= yy < h ==> (cols@[c]@[yy]) as int == vertical53(ll@, hl@, lh@, hh@, wn, hn, c, yy),
            decreases w - x,
        {
            let mut col_output = zero_vec(h);
            if x < ll_w {
                let col_l = gather_column(ll, ll_w, x, ll_h);
                let col_h = gather_column(lh, ll_w, x, lh_h);
                assert(inverse53_fits(
                    column(ll@, ll_w as int, x as int, ll_h as nat),
                    column(lh@, ll_w as int, x as int, lh_h as nat),
                    hn,
                ));
                Self::inverse(col_l.as_slice(), col_h.as_slice(), col_output.as_mut_slice());
            } else {
                let col_l = gather_column(hl, hl_w, x - ll_w, ll_h);
                let col_h = gather_column(hh, hl_w, x - ll_w, lh_h);
                assert(inverse53_fits(
                    column(hl@, hl_w as int, x - ll_w, ll_h as nat),
                    column(hh@, hl_w as int, x - ll_w, lh_h as nat),
                    hn,
                ));
                Self::inverse(col_l.as_slice(), col_h.as_slice(), col_output.as_mut_slice());
            }
            cols.push(col_output);
            x = x + 1;
        }
        let mut y: usize = 0;
        while y < h
            invariant
                w == width,
                h == height,
                wn == w,
                hn == h,
                w >= 1,
                w * h <= usize::MAX,
                ll_w == (wn + 1) / 2,
                hl_w == wn / 2,
                inverse53_2d_fits(ll@, hl@, lh@, hh@, wn, hn),
                y <= h,
                output@.len() == old(output)@.len(),
                old(output)@.len() >= w * h,
                cols@.len() == w,
                forall|c: int|
                    0 <= c < w ==> (#[trigger] cols@[c])@.len() == h && forall|yy: int|
                        0 <= yy < h ==> (cols@[c]@[yy]) as int == vertical53(ll@, hl@, lh@, hh@, wn, hn, c, yy),
                forall|i: int|
                    0 <= i < output@.len() ==> (#[trigger] output@[i]) as int == if i < y * w {
                        inverse53_2d(ll@, hl@, lh@, hh@, wn, hn, i % (w as int), i / (w as int))
                    } else {
                        old(output)@[i] as int
                    },
            decreases h - y,
        {
            let mut row_l: Vec<i32> = Vec::new();
            let mut row_h: Vec<i32> = Vec::new();
            let mut k: usize = 0;
            while k < w
                invariant
                    wn == w,
                    hn == h,
                    y < h,
                    ll_w == (wn + 1) / 2,
                    hl_w == wn / 2,
                    cols@.len() == w,
                    forall|c: int|
                        0 <= c < w ==> (#[trigger] cols@[c])@.len() == h && forall|yy: int|
                            0 <= yy < h ==> (cols@[c]@[yy]) as int == vertical53(ll@, hl@, lh@, hh@, wn, hn, c, yy),
                    k <= w,
                    row_l@.len() == if k < ll_w { k as int } else { ll_w as int },
                    row_h@.len() == if k < ll_w { 0 } else { k - ll_w },
                    forall|j: int|
                        0 <= j < row_l@.len() ==> (#[trigger] row_l@[j]) as int == vertical53(
                            ll@,
                            hl@,
                            lh@,
                            hh@,
                            wn,
                            hn,
                            j,
                            y as int,
                        ),
                    forall|j: int|
                        0 <= j < row_h@.len() ==> (#[trigger] row_h@[j]) as int == vertical53(
                            ll@,
                            hl@,
                            lh@,
                            hh@,
                            wn,
                            hn,
                            ll_w + j,
                            y as int,
                        ),
                decreases w - k,
            {
                let v = cols[k][y];
                if k < ll_w {
                    row_l.push(v);
                } else {
                    row_h.push(v);
                }
                k = k + 1;
            }
            proof {
                assert(ints(row_l@) =~= row_low53(ll@, hl@, lh@, hh@, wn, hn, y as int));
                assert(ints(row_h@) =~= row_high53(ll@, hl@, lh@, hh@, wn, hn, y as int));
            }
            assert(inverse53_fits(
                row_low53(ll@, hl@, lh@, hh@, wn, hn, y as int),
                row_high53(ll@, hl@, lh@, hh@, wn, hn, y as int),
                wn,
            ));
            let mut row_output = zero_vec(w);
            Self::inverse(row_l.as_slice(), row_h.as_slice(), row_output.as_mut_slice());
            let mut k: usize = 0;
            while k < w
                invariant
                    wn == w,
                    hn == h,
                    w >= 1,
                    y < h,
                    w * h <= usize::MAX,
                    output@.len() == old(output)@.len(),
                    old(output)@.len() >= w * h,
                    row_output@.len() == w,
                    ints(row_output@) == inverse53(
                        row_low53(ll@, hl@, lh@, hh@, wn, hn, y as int),
                        row_high53(ll@, hl@, lh@, hh@, wn, hn, y as int),
                        wn,
                        zeros(wn),
                    ),
                    k <= w,
                    forall|i: int|
                        0 <= i < output@.len() ==> (#[trigger] output@[i]) as int == if i < y * w + k {
                            inverse53_2d(ll@, hl@, lh@, hh@, wn, hn, i % (w as int), i / (w as int))
                        } else {
                            old(output)@[i] as int
                        },
                decreases w - k,
            {
                proof {
                    lemma_grid_index(k as int, y as int, w as int, h as int);
                }
                let idx = y * w + k;
                output[idx] = row_output[k];
                proof {
                    assert(ints(row_output@)[k as int] == row_output@[k as int] as int);
                }
                k = k + 1;
            }
            proof {
                assert(y * w + w == (y + 1) * w) by (nonlinear_arith);
            }
            y = y + 1;
        }
        proof {
            assert(h * w == w * h) by (nonlinear_arith);
        }
    }
}
/// Every value of `y` lies within `-b..=b`.
pub open spec fn within(y: Seq<int>, b: int) -> bool {
    forall|i: int| 0 <= i < y.len() ==> -b <= #[trigger] y[i] <= b
}

/// Two or more coefficients within `±b` (at most `2^28`) unlift within `i32`, to samples
/// within `±(3b + 3)`.
proof fn lemma_unlift_within(y: Seq<int>, b: int)
    requires
        y.len() >= 2,
        0 <= b <= 0x1000_0000,
        within(y, b),
    ensures
        unlift53_fits(y),
        within(unlifted53(y), 3 * b + 3),
{
    let e = unupdated53(y);
    assert forall|i: int| 0 <= i < y.len() implies -2 * b - 2 <= #[trigger] e[i] <= 2 * b + 2 by {
        assert(-b <= y[i] <= b);
        if i % 2 == 0 {
            assert(-b <= left_of(y, i) <= b);
            assert(-b <= right_of(y, i) <= b);
        }
    }
    assert forall|i: int| 0 <= i < y.len() && i % 2 == 1 implies -b <= #[trigger] e[i] <= b by {
        assert(-b <= y[i] <= b);
    }
    assert forall|i: int|
        0 <= i < y.len() && i % 2 == 0 implies in_i32(#[trigger] left_of(y, i) + right_of(y, i)) && in_i32(
        left_of(y, i) + right_of(y, i) + 2,
    ) && in_i32(e[i]) by {
        assert(-b <= left_of(y, i) <= b);
        assert(-b <= right_of(y, i) <= b);
        assert(-2 * b - 2 <= e[i] <= 2 * b + 2);
    }
    let r = unlifted53(y);
    assert forall|i: int|
        0 <= i < y.len() && i % 2 == 1 implies (if i + 1 < y.len() {
        in_i32(e[i - 1] + e[i + 1])
    } else {
        in_i32(e[i] + e[i - 1])
    }) && in_i32(#[trigger] r[i]) && -3 * b - 3 <= r[i] <= 3 * b + 3 by {
        assert(-b <= e[i] <= b);
        assert(-2 * b - 2 <= e[i - 1] <= 2 * b + 2);
        if i + 1 < y.len() {
            assert(-2 * b - 2 <= e[i + 1] <= 2 * b + 2);
        }
    }
    assert forall|i: int| 0 <= i < y.len() implies -3 * b - 3 <= #[trigger] r[i] <= 3 * b + 3 by {
        if i % 2 == 0 {
            assert(-2 * b - 2 <= e[i] <= 2 * b + 2);
        }
    }
}

/// Interleaving values within `±b` gives values within `±b` (zeros past the ends).
proof fn lemma_interleaved_within(l: Seq<int>, h: Seq<int>, n: nat, b: int)
    requires
        b >= 0,
        within(l, b),
        within(h, b),
    ensures
        within(interleaved(l, h, n), b),
{
    let y = interleaved(l, h, n);
    assert forall|i: int| 0 <= i < y.len() implies -b <= #[trigger] y[i] <= b by {
        if i % 2 == 0 {
            if i / 2 < l.len() {
                assert(-b <= l[i / 2] <= b);
            }
        } else {
            if i / 2 < h.len() {
                assert(-b <= h[i / 2] <= b);
            }
        }
    }
}

/// A column of samples within `±b` is within `±b`.
proof fn lemma_column_within(src: Seq<i32>, sw: int, x: int, n: nat, b: int)
    requires
        b >= 0,
        bounded(src, b),
    ensures
        within(column(src, sw, x, n), b),
{
    let c = column(src, sw, x, n);
    assert forall|y: int| 0 <= y < c.len() implies -b <= #[trigger] c[y] <= b by {
        if 0 <= y * sw + x < src.len() {
            assert(-b <= src[y * sw + x] <= b);
        }
    }
}

/// The inverse transform of `n` samples from low and high parts within `±b` (at most
/// `2^28`) stays within `i32` and gives samples within `±(3b + 3)`.
proof fn lemma_inverse_within(l: Seq<int>, h: Seq<int>, n: nat, b: int)
    requires
        0 <= b <= 0x1000_0000,
        within(l, b),
        within(h, b),
    ensures
        inverse53_fits(l, h, n),
        within(inverse53(l, h, n, zeros(n)), 3 * b + 3),
{
    lemma_interleaved_within(l, h, n, b);
    if n >= 2 {
        lemma_unlift_within(interleaved(l, h, n), b);
    } else if n == 1 {
        let r = inverse53(l, h, n, zeros(n));
        assert forall|i: int| 0 <= i < r.len() implies -3 * b - 3 <= #[trigger] r[i] <= 3 * b + 3 by {
            if l.len() > 0 {
                assert(-b <= l[0] <= b);
            }
        }
    }
}

/// Subbands within `±2^26` go through the 2D inverse transform without leaving `i32`.
pub proof fn lemma_bounded_inverse53_2d_fits(ll: Seq<i32>, hl: Seq<i32>, lh: Seq<i32>, hh: Seq<i32>, w: nat, h: nat)
    requires
        bounded(ll, 0x400_0000),
        bounded(hl, 0x400_0000),
        bounded(lh, 0x400_0000),
        bounded(hh, 0x400_0000),
    ensures
        inverse53_2d_fits(ll, hl, lh, hh, w, h),
{
    let b = 0x400_0000int;
    let ll_w = (w + 1) / 2;
    let hl_w = w / 2;
    let ll_h = (h + 1) / 2;
    let lh_h = h / 2;
    assert forall|x: int| 0 <= x < ll_w implies #[trigger] inverse53_fits(
        column(ll, ll_w as int, x, ll_h),
        column(lh, ll_w as int, x, lh_h),
        h,
    ) by {
        lemma_column_within(ll, ll_w as int, x, ll_h, b);
        lemma_column_within(lh, ll_w as int, x, lh_h, b);
        lemma_inverse_within(column(ll, ll_w as int, x, ll_h), column(lh, ll_w as int, x, lh_h), h, b);
    }
    assert forall|x: int| 0 <= x < hl_w implies #[trigger] inverse53_fits(
        column(hl, hl_w as int, x, ll_h),
        column(hh, hl_w as int, x, lh_h),
        h,
    ) by {
        lemma_column_within(hl, hl_w as int, x, ll_h, b);
        lemma_column_within(hh, hl_w as int, x, lh_h, b);
        lemma_inverse_within(column(hl, hl_w as int, x, ll_h), column(hh, hl_w as int, x, lh_h), h, b);
    }
    let c = 3 * b + 3;
    assert forall|y: int| 0 <= y < h implies #[trigger] inverse53_fits(
        row_low53(ll, hl, lh, hh, w, h, y),
        row_high53(ll, hl, lh, hh, w, h, y),
        w,
    ) by {
        let lo = row_low53(ll, hl, lh, hh, w, h, y);
        let hi = row_high53(ll, hl, lh, hh, w, h, y);
        assert forall|x: int| 0 <= x < w implies -c <= #[trigger] vertical53(ll, hl, lh, hh, w, h, x, y) <= c by {
            if x < ll_w {
                lemma_column_within(ll, ll_w as int, x, ll_h, b);
                lemma_column_within(lh, ll_w as int, x, lh_h, b);
                lemma_inverse_within(column(ll, ll_w as int, x, ll_h), column(lh, ll_w as int, x, lh_h), h, b);
                let r = inverse53(column(ll, ll_w as int, x, ll_h), column(lh, ll_w as int, x, lh_h), h, zeros(h));
                assert(-c <= r[y] <= c);
            } else {
                lemma_column_within(hl, hl_w as int, x - ll_w, ll_h, b);
                lemma_column_within(hh, hl_w as int, x - ll_w, lh_h, b);
                lemma_inverse_within(
                    column(hl, hl_w as int, x - ll_w, ll_h),
                    column(hh, hl_w as int, x - ll_w, lh_h),
                    h,
                    b,
                );
                let r = inverse53(column(hl, hl_w as int, x - ll_w, ll_h), column(hh, hl_w as int, x - ll_w, lh_h), h, zeros(h));
                assert(-c <= r[y] <= c);
            }
        }
        assert forall|x: int| 0 <= x < lo.len() implies -c <= #[trigger] lo[x] <= c by {
            assert(-c <= vertical53(ll, hl, lh, hh, w, h, x, y) <= c);
        }
        assert forall|x: int| 0 <= x < hi.len() implies -c <= #[trigger] hi[x] <= c by {
            assert(-c <= vertical53(ll, hl, lh, hh, w, h, ll_w + x, y) <= c);
        }
        lemma_inverse_within(lo, hi, w, c);
    }
}

} // verus!
