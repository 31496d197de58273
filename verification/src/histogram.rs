//! Luma histogram and Otsu threshold selection.
//!
//! The threshold search maximizes the between-class variance
//! `sigma(t) = w0 * w1 * (u1 - u0)^2`, where `w0` is the fraction of pixels
//! with luma below the split `t`, `w1 = 1 - w0`, and `u0`, `u1` are the class
//! means. Over a histogram with total count `n`, prefix count `c` and prefix
//! weighted sum `s0` (with `s1` the remaining weighted sum), that variance
//! equals `(c*s1 - (n-c)*s0)^2 / (n^2 * c * (n-c))`. Since `n^2` is common to
//! every split, splits are ranked by the exact rational
//! `sigma_num(t) / sigma_den(t)` below; no rounding enters the comparison.

use vstd::prelude::*;
use crate::raster::GrayImage;
use vstd::arithmetic::div_mod::{lemma_fundamental_div_mod, lemma_mod_bound};

verus! {

/// Sum of the first `n` bucket counts: the number of pixels with luma < `n`.
pub open spec fn sum_counts(h: Seq<u32>, n: int) -> int
    decreases n,
{
    if n <= 0 {
        0
    } else {
        sum_counts(h, n - 1) + h[n - 1]
    }
}

/// Sum of `value * count` over the first `n` buckets.
pub open spec fn weighted_sum(h: Seq<u32>, n: int) -> int
    decreases n,
{
    if n <= 0 {
        0
    } else {
        weighted_sum(h, n - 1) + (n - 1) * h[n - 1]
    }
}

/// How many of the first `n` entries of `s` hold the value `v`.
pub open spec fn count_value(s: Seq<u8>, v: int, n: int) -> int
    decreases n,
{
    if n <= 0 {
        0
    } else {
        count_value(s, v, n - 1) + if s[n - 1] == v {
            1int
        } else {
            0int
        }
    }
}

/// The 256-bucket histogram of a luma plane.
pub open spec fn histogram_of(s: Seq<u8>) -> Seq<u32> {
    Seq::new(256, |v: int| count_value(s, v, s.len() as int) as u32)
}

/// Both classes of split `t` are non-empty, so both class means are defined.
pub open spec fn valid_split(h: Seq<u32>, t: int) -> bool {
    0 < sum_counts(h, t) && sum_counts(h, t) < sum_counts(h, 256)
}

/// Numerator of the between-class variance of split `t` over the common
/// factor `n^2`: `(c*s1 - (n-c)*s0)^2`.
pub open spec fn sigma_num(h: Seq<u32>, t: int) -> int {
    let c = sum_counts(h, t);
    let n = sum_counts(h, 256);
    let s0 = weighted_sum(h, t);
    let s1 = weighted_sum(h, 256) - s0;
    (c * s1 - (n - c) * s0) * (c * s1 - (n - c) * s0)
}

/// Denominator of the between-class variance of split `t` over the common
/// factor `n^2`: `c * (n - c)`.
pub open spec fn sigma_den(h: Seq<u32>, t: int) -> int {
    sum_counts(h, t) * (sum_counts(h, 256) - sum_counts(h, t))
}

/// Split `t` has strictly greater between-class variance than the best split
/// found so far; `best == 0` means no split was selected yet, so the variance
/// to beat is zero.
pub open spec fn improves(h: Seq<u32>, t: int, best: int) -> bool {
    if best == 0 {
        sigma_num(h, t) > 0
    } else {
        sigma_num(h, t) * sigma_den(h, best) > sigma_num(h, best) * sigma_den(h, t)
    }
}

/// The selected split after scanning candidates `1..=t` in increasing order,
/// keeping the first maximizer (a later candidate replaces an earlier one
/// only on strictly greater variance); 0 while no valid split improved on
/// variance zero.
pub open spec fn best_split(h: Seq<u32>, t: int) -> int
    decreases t,
{
    if t < 1 {
        0
    } else {
        let prev = best_split(h, t - 1);
        if valid_split(h, t) && improves(h, t, prev) {
            t
        } else {
            prev
        }
    }
}

/// The Otsu threshold of a 256-bucket histogram: the best split among
/// candidates 1 through 254, floored to 1 when no candidate was selected so
/// that the result is never 0.
pub open spec fn otsu_spec(h: Seq<u32>) -> int {
    if best_split(h, 254) == 0 {
        1
    } else {
        best_split(h, 254)
    }
}

proof fn lemma_sum_counts_monotonic(h: Seq<u32>, m: int, n: int)
    requires
        m <= n,
    ensures
        sum_counts(h, m) <= sum_counts(h, n),
    decreases n - m,
{
    if m < n {
        lemma_sum_counts_monotonic(h, m, n - 1);
    }
}

proof fn lemma_weighted_sum_monotonic(h: Seq<u32>, m: int, n: int)
    requires
        0 <= m <= n,
    ensures
        weighted_sum(h, m) <= weighted_sum(h, n),
    decreases n - m,
{
    if m < n {
        lemma_weighted_sum_monotonic(h, m, n - 1);
        assert((n - 1) * h[n - 1] >= 0) by (nonlinear_arith)
            requires
                n >= 1,
                h[n - 1] >= 0,
        ;
    }
}

proof fn lemma_best_split_range(h: Seq<u32>, t: int)
    requires
        t >= 0,
    ensures
        0 <= best_split(h, t) <= t,
    decreases t,
{
    if t >= 1 {
        lemma_best_split_range(h, t - 1);
    }
}

/// Cross-multiplied fraction comparison agrees with comparing quotients and,
/// on equal quotients, with the cross-multiplied comparison of remainders.
proof fn lemma_frac_cross(a1: int, b1: int, a2: int, b2: int, q1: int, r1: int, q2: int, r2: int)
    by (nonlinear_arith)
    requires
        b1 > 0,
        b2 > 0,
        a1 == q1 * b1 + r1,
        0 <= r1 < b1,
        a2 == q2 * b2 + r2,
        0 <= r2 < b2,
    ensures
        q1 > q2 ==> a1 * b2 > a2 * b1,
        q1 < q2 ==> a1 * b2 < a2 * b1,
        q1 == q2 ==> (a1 * b2 > a2 * b1) == (r1 * b2 > r2 * b1),
{
}

/// Decides `a1 / b1 > a2 / b2` over the rationals, that is
/// `a1 * b2 > a2 * b1`, without forming products that could overflow:
/// equal Euclidean quotients reduce the question to the reciprocals of the
/// remainder fractions.
fn frac_gt(a1: u128, b1: u128, a2: u128, b2: u128) -> (r: bool)
    requires
        b1 > 0,
        b2 > 0,
    ensures
        r == (a1 * b2 > a2 * b1),
    decreases b1 + b2,
{
    let q1 = a1 / b1;
    let r1 = a1 % b1;
    let q2 = a2 / b2;
    let r2 = a2 % b2;
    proof {
        lemma_fundamental_div_mod(a1 as int, b1 as int);
        lemma_fundamental_div_mod(a2 as int, b2 as int);
        lemma_mod_bound(a1 as int, b1 as int);
        lemma_mod_bound(a2 as int, b2 as int);
        lemma_frac_cross(
            a1 as int,
            b1 as int,
            a2 as int,
            b2 as int,
            q1 as int,
            r1 as int,
            q2 as int,
            r2 as int,
        );
    }
    if q1 != q2 {
        q1 > q2
    } else if r2 == 0 {
        proof {
            assert((a1 as int * b2 as int > a2 as int * b1 as int) == (r1 > 0))
                by (nonlinear_arith)
                requires
                    b1 > 0,
                    b2 > 0,
                    0 <= r1 as int,
                    (r1 as int) < (b1 as int),
                    r2 as int == 0,
                    q1 == q2,
                    a1 as int == q1 as int * b1 as int + r1 as int,
                    a2 as int == q2 as int * b2 as int + r2 as int,
            ;
        }
        r1 > 0
    } else if r1 == 0 {
        proof {
            assert(!(a1 as int * b2 as int > a2 as int * b1 as int)) by (nonlinear_arith)
                requires
                    b1 > 0,
                    b2 > 0,
                    r1 as int == 0,
                    0 <= r2 as int,
                    (r2 as int) < (b2 as int),
                    q1 == q2,
                    a1 as int == q1 as int * b1 as int + r1 as int,
                    a2 as int == q2 as int * b2 as int + r2 as int,
            ;
        }
        false
    } else {
        let sub = frac_gt(b2, r2, b1, r1);
        proof {
            assert((b2 as int * r1 as int > b1 as int * r2 as int) == (r1 as int * b2 as int
                > r2 as int * b1 as int)) by (nonlinear_arith);
        }
        sub
    }
}

/// The squared difference is independent of the order of subtraction.
proof fn lemma_abs_square(x: int, y: int, d: int)
    by (nonlinear_arith)
    requires
        d == if x >= y {
            x - y
        } else {
            y - x
        },
    ensures
        d * d == (x - y) * (x - y),
{
}

/// Builds the 256-bucket luma histogram of a grayscale image by counting the
/// occurrences of each luma value.
///
/// The bucket counts always sum to the pixel count of the image.
pub fn compute_histogram(img: &GrayImage) -> (hist: Vec<u32>)
    requires
        img.wf(),
        img.data.len() <= u32::MAX,
    ensures
        hist@ == histogram_of(img.data@),
        hist.len() == 256,
        sum_counts(hist@, 256) == img.data.len(),
{
    let mut hist: Vec<u32> = Vec::new();
    let mut v: usize = 0;
    while v < 256
        invariant
            v <= 256,
            hist.len() == v,
            forall|j: int| 0 <= j < v ==> hist[j] == 0,
        decreases 256 - v,
    {
        hist.push(0);
        v = v + 1;
    }
    proof {
        lemma_sum_zero(hist@, 256);
        lemma_count_zero(img.data@, 0);
    }
    let mut i: usize = 0;
    while i < img.data.len()
        invariant
            img.wf(),
            img.data.len() <= u32::MAX,
            i <= img.data.len(),
            hist.len() == 256,
            forall|j: int| 0 <= j < 256 ==> hist[j] as int == count_value(img.data@, j, i as int),
            sum_counts(hist@, 256) == i,
        decreases img.data.len() - i,
    {
        let value: usize = img.data[i] as usize;
        proof {
            lemma_count_value_bound(img.data@, value as int, i as int);
            lemma_sum_counts_update(hist@, value as int, 256, (hist@[value as int] + 1) as u32);
        }
        let ghost old_hist = hist@;
        hist[value] = hist[value] + 1;
        proof {
            assert forall|j: int| 0 <= j < 256 implies hist[j] as int == count_value(
                img.data@,
                j,
                i as int + 1,
            ) by {
                if j == value {
                    assert(hist@[j] == old_hist[j] + 1);
                } else {
                    assert(hist@[j] == old_hist[j]);
                }
            }
        }
        i = i + 1;
    }
    proof {
        assert(hist@ =~= histogram_of(img.data@));
    }
    hist
}

proof fn lemma_sum_zero(h: Seq<u32>, n: int)
    requires
        forall|j: int| 0 <= j < n ==> h[j] == 0,
    ensures
        sum_counts(h, n) == 0,
    decreases n,
{
    if n > 0 {
        lemma_sum_zero(h, n - 1);
    }
}

proof fn lemma_count_zero(s: Seq<u8>, n: int)
    ensures
        forall|v: int| count_value(s, v, 0) == 0,
{
}

proof fn lemma_count_value_bound(s: Seq<u8>, v: int, n: int)
    requires
        n >= 0,
    ensures
        0 <= count_value(s, v, n) <= n,
    decreases n,
{
    if n > 0 {
        lemma_count_value_bound(s, v, n - 1);
    }
}

proof fn lemma_sum_counts_update(h: Seq<u32>, j: int, n: int, x: u32)
    requires
        0 <= j < h.len(),
        n <= h.len(),
    ensures
        j < n ==> sum_counts(h.update(j, x), n) == sum_counts(h, n) - h[j] + x,
        j >= n ==> sum_counts(h.update(j, x), n) == sum_counts(h, n),
    decreases n,
{
    if n > 0 {
        lemma_sum_counts_update(h, j, n - 1, x);
    }
}

/// Selects the Otsu threshold of a 256-bucket histogram: the split in
/// `1..=254` with the maximal between-class variance, scanning upward and
/// keeping the first maximizer; 1 when no split separates two non-empty
/// classes. The result is never 0, as the downstream edge detector requires.
///
/// The bounds on the histogram's totals mirror the 32-bit counters the
/// histogram is built from.
pub fn otsu_threshold(hist: &Vec<u32>) -> (t: u8)
    requires
        hist.len() == 256,
        sum_counts(hist@, 256) <= u32::MAX,
        weighted_sum(hist@, 256) <= u32::MAX,
    ensures
        t as int == otsu_spec(hist@),
        1 <= t <= 255,
{
    let mut n: u64 = 0;
    let mut s: u64 = 0;
    let mut i: usize = 0;
    while i < 256
        invariant
            i <= 256,
            hist.len() == 256,
            n == sum_counts(hist@, i as int),
            s == weighted_sum(hist@, i as int),
            sum_counts(hist@, 256) <= u32::MAX,
            weighted_sum(hist@, 256) <= u32::MAX,
        decreases 256 - i,
    {
        proof {
            lemma_sum_counts_monotonic(hist@, i as int + 1, 256);
            lemma_weighted_sum_monotonic(hist@, i as int + 1, 256);
            assert(i as int * hist@[i as int] <= 255 * 0xffff_ffff) by (nonlinear_arith)
                requires
                    0 <= i as int <= 255,
                    0 <= hist@[i as int] <= 0xffff_ffff,
            ;
        }
        n = n + hist[i] as u64;
        s = s + (i as u64) * (hist[i] as u64);
        i = i + 1;
    }
    let mut c: u64 = hist[0] as u64;
    let mut s0: u64 = 0;
    let mut best: u8 = 0;
    let mut bnum: u128 = 0;
    let mut bden: u128 = 1;
    let mut t: usize = 1;
    while t < 255
        invariant
            1 <= t <= 255,
            hist.len() == 256,
            n == sum_counts(hist@, 256),
            s == weighted_sum(hist@, 256),
            n <= u32::MAX,
            s <= u32::MAX,
            c == sum_counts(hist@, t as int),
            s0 == weighted_sum(hist@, t as int),
            best as int == best_split(hist@, t as int - 1),
            best < t,
            best != 0 ==> bnum == sigma_num(hist@, best as int) && bden == sigma_den(
                hist@,
                best as int,
            ) && bden > 0,
        decreases 255 - t,
    {
        proof {
            lemma_sum_counts_monotonic(hist@, t as int, 256);
            lemma_weighted_sum_monotonic(hist@, t as int, 256);
        }
        if 0 < c && c < n {
            let s1: u64 = s - s0;
            proof {
                assert(c * s1 <= 0xffff_ffffu64 * 0xffff_ffffu64) by (nonlinear_arith)
                    requires
                        0 <= c <= 0xffff_ffffu64,
                        0 <= s1 <= 0xffff_ffffu64,
                ;
                assert((n - c) * s0 <= 0xffff_ffffu64 * 0xffff_ffffu64) by (nonlinear_arith)
                    requires
                        0 <= n - c <= 0xffff_ffffu64,
                        0 <= s0 <= 0xffff_ffffu64,
                ;
            }
            let a: u64 = c * s1;
            let b: u64 = (n - c) * s0;
            let d: u64 = if a >= b {
                a - b
            } else {
                b - a
            };
            proof {
                lemma_abs_square(a as int, b as int, d as int);
                assert(d as int * d as int <= 0xffff_ffff_ffff_ffff_ffff_ffff_ffff_ffffu128)
                    by (nonlinear_arith)
                    requires
                        0 <= d as int <= 0xffff_ffff_ffff_ffffu64,
                ;
                assert(c as int * (n as int - c as int) <= 0xffff_ffff_ffff_ffffu64)
                    by (nonlinear_arith)
                    requires
                        0 <= c as int <= 0xffff_ffffu64,
                        0 <= n as int - c as int <= 0xffff_ffffu64,
                ;
            }
            let num: u128 = (d as u128) * (d as u128);
            let den: u128 = (c as u128) * ((n - c) as u128);
            proof {
                assert(den > 0) by (nonlinear_arith)
                    requires
                        c as int >= 1,
                        n as int - c as int >= 1,
                        den == c as int * (n as int - c as int),
                ;
                assert(num == sigma_num(hist@, t as int));
                assert(den == sigma_den(hist@, t as int));
            }
            let take = if best == 0 {
                num > 0
            } else {
                frac_gt(num, den, bnum, bden)
            };
            proof {
                assert(take == improves(hist@, t as int, best as int));
            }
            if take {
                best = t as u8;
                bnum = num;
                bden = den;
            }
        }
        proof {
            lemma_sum_counts_monotonic(hist@, t as int + 1, 256);
            lemma_weighted_sum_monotonic(hist@, t as int + 1, 256);
            assert(t as int * hist@[t as int] <= 255 * 0xffff_ffff) by (nonlinear_arith)
                requires
                    0 <= t as int <= 255,
                    0 <= hist@[t as int] <= 0xffff_ffff,
            ;
        }
        c = c + hist[t] as u64;
        s0 = s0 + (t as u64) * (hist[t] as u64);
        t = t + 1;
    }
    if best == 0 {
        1
    } else {
        best
    }
}

/// Derives the hysteresis bounds for the edge-detection pass from the Otsu
/// threshold of a grayscale image, returned as (low, high) in tenths of a
/// luma unit: high is 4/10 of the threshold and low is half of high. The 0.4
/// scale and the 2:1 ratio are calibration constants for typical Otsu
/// thresholds on natural images, not structural invariants.
pub fn otsu_thresholding(img: &GrayImage) -> (bounds: (u16, u16))
    requires
        img.wf(),
        img.data.len() <= u32::MAX,
        weighted_sum(histogram_of(img.data@), 256) <= u32::MAX,
    ensures
        bounds.1 as int == 4 * otsu_spec(histogram_of(img.data@)),
        bounds.0 as int == 2 * otsu_spec(histogram_of(img.data@)),
{
    let hist = compute_histogram(img);
    let t = otsu_threshold(&hist);
    (2 * (t as u16), 4 * (t as u16))
}

/// A perfectly bimodal histogram: `a` pixels at luma 0 and `b` at luma 255.
pub open spec fn bimodal_hist(a: u32, b: u32) -> Seq<u32> {
    Seq::new(
        256,
        |i: int|
            if i == 0 {
                a
            } else if i == 255 {
                b
            } else {
                0u32
            },
    )
}

proof fn lemma_bimodal_sums(a: u32, b: u32, t: int)
    requires
        1 <= t <= 255,
    ensures
        sum_counts(bimodal_hist(a, b), t) == a,
        weighted_sum(bimodal_hist(a, b), t) == 0,
    decreases t,
{
    let h = bimodal_hist(a, b);
    if t == 1 {
        assert(sum_counts(h, 0) == 0);
        assert(weighted_sum(h, 0) == 0);
        assert(h[0] == a);
        assert(sum_counts(h, 1) == 0 + a);
        assert(weighted_sum(h, 1) == 0 + 0 * (h[0] as int));
    } else {
        lemma_bimodal_sums(a, b, t - 1);
        let ghost hv = h[t - 1] as int;
        assert(hv == 0);
        assert((t - 1) * hv == 0) by (nonlinear_arith)
            requires
                hv == 0,
        ;
    }
}

proof fn lemma_bimodal_best(a: u32, b: u32, t: int)
    requires
        a >= 1,
        b >= 1,
        0 <= t <= 254,
    ensures
        best_split(bimodal_hist(a, b), t) == if t == 0 {
            0int
        } else {
            1int
        },
    decreases t,
{
    let h = bimodal_hist(a, b);
    if t >= 1 {
        lemma_bimodal_best(a, b, t - 1);
        lemma_bimodal_sums(a, b, t);
        lemma_bimodal_sums(a, b, 255);
        assert(sum_counts(h, 256) == a + b);
        assert(weighted_sum(h, 256) == 0 + 255 * b);
        let c = a as int;
        let n = a as int + b as int;
        let s1 = 255 * b as int;
        assert(sigma_num(h, t) == (c * s1 - (n - c) * 0) * (c * s1 - (n - c) * 0));
        if t == 1 {
            assert(valid_split(h, 1));
            assert(c * s1 - (n - c) * 0 > 0) by (nonlinear_arith)
                requires
                    c >= 1,
                    s1 >= 255,
            ;
            assert(sigma_num(h, 1) > 0) by (nonlinear_arith)
                requires
                    c * s1 - (n - c) * 0 > 0,
                    sigma_num(h, 1) == (c * s1 - (n - c) * 0) * (c * s1 - (n - c) * 0),
            ;
            assert(improves(h, 1, 0));
        } else {
            lemma_bimodal_sums(a, b, 1);
            assert(sigma_num(h, t) == sigma_num(h, 1));
            assert(sigma_den(h, t) == sigma_den(h, 1));
            assert(!improves(h, t, 1));
        }
    }
}

/// For a perfectly bimodal histogram (`a` pixels at luma 0 and `b` pixels at
/// luma 255, both counts positive) the selected threshold lies strictly
/// between 0 and 255, and scaling both counts by the same positive factor
/// leaves it unchanged: the variance-maximization criterion is
/// scale-invariant.
pub proof fn lemma_bimodal_threshold_scale_invariant(a: u32, b: u32, sa: u32, sb: u32, f: int)
    requires
        a > 0,
        b > 0,
        f > 0,
        sa == f * a,
        sb == f * b,
    ensures
        0 < otsu_spec(bimodal_hist(a, b)) < 255,
        otsu_spec(bimodal_hist(sa, sb)) == otsu_spec(bimodal_hist(a, b)),
{
    lemma_bimodal_best(a, b, 254);
    assert(sa >= 1 && sb >= 1) by (nonlinear_arith)
        requires
            f >= 1,
            a >= 1,
            b >= 1,
            sa == f * a,
            sb == f * b,
    ;
    lemma_bimodal_best(sa, sb, 254);
}

} // verus!
