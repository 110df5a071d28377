use vstd::prelude::*;
use crate::raster::Raster;

verus! {

/// Sum of channel `c` over columns `[lo, hi)` of row `y`.
pub open spec fn ch_sum(img: &Raster, y: int, lo: int, hi: int, c: int) -> int
    decreases hi - lo,
{
    if hi <= lo {
        0
    } else {
        ch_sum(img, y, lo, hi - 1, c) + img.pix(hi - 1, y, c)
    }
}

/// Sum of the squares of channel `c` over columns `[lo, hi)` of row `y`.
pub open spec fn ch_sq_sum(img: &Raster, y: int, lo: int, hi: int, c: int) -> int
    decreases hi - lo,
{
    if hi <= lo {
        0
    } else {
        ch_sq_sum(img, y, lo, hi - 1, c) + img.pix(hi - 1, y, c) * img.pix(hi - 1, y, c)
    }
}

/// The variance numerator of one channel over the sub-range: `n` times the
/// sum of the squared deviations from the channel mean, where `n = hi - lo`.
/// Dividing by `n` gives the (unnormalized) sum of squared deviations.
pub open spec fn ch_var_num(img: &Raster, y: int, lo: int, hi: int, c: int) -> int {
    (hi - lo) * ch_sq_sum(img, y, lo, hi, c) - ch_sum(img, y, lo, hi, c) * ch_sum(
        img,
        y,
        lo,
        hi,
        c,
    )
}

/// The mean numerator of a row: `n` times the sum of the three channel
/// means, where `n = hi - lo`.
pub open spec fn row_mean_num(img: &Raster, y: int, lo: int, hi: int) -> int {
    ch_sum(img, y, lo, hi, 0) + ch_sum(img, y, lo, hi, 1) + ch_sum(img, y, lo, hi, 2)
}

/// The variance numerator of a row: `n` times the sum over the three
/// channels of the squared deviations from the channel mean.  This is the
/// exact integer form of the per-row variance; it is only ever compared
/// against a threshold scaled by the same factor `n`.
pub open spec fn row_var_num(img: &Raster, y: int, lo: int, hi: int) -> int {
    ch_var_num(img, y, lo, hi, 0) + ch_var_num(img, y, lo, hi, 1) + ch_var_num(img, y, lo, hi, 2)
}

/// Channel sums are bounded by the number of columns times the largest byte.
pub proof fn lemma_ch_sums_bounds(img: &Raster, y: int, lo: int, hi: int, c: int)
    requires
        lo <= hi,
    ensures
        0 <= ch_sum(img, y, lo, hi, c) <= 255 * (hi - lo),
        0 <= ch_sq_sum(img, y, lo, hi, c) <= 65025 * (hi - lo),
    decreases hi - lo,
{
    if lo < hi {
        lemma_ch_sums_bounds(img, y, lo, hi - 1, c);
        let p = img.pix(hi - 1, y, c) as int;
        assert(0 <= p * p <= 65025) by (nonlinear_arith)
            requires
                0 <= p <= 255,
        ;
    }
}

/// The square of a channel sum never exceeds the column count times the sum
/// of squares, so the variance numerator is never negative.
pub proof fn lemma_ch_cauchy(img: &Raster, y: int, lo: int, hi: int, c: int)
    requires
        lo <= hi,
    ensures
        ch_sum(img, y, lo, hi, c) * ch_sum(img, y, lo, hi, c) <= (hi - lo) * ch_sq_sum(
            img,
            y,
            lo,
            hi,
            c,
        ),
    decreases hi - lo,
{
    if lo < hi {
        lemma_ch_cauchy(img, y, lo, hi - 1, c);
        lemma_ch_sums_bounds(img, y, lo, hi - 1, c);
        let s = ch_sum(img, y, lo, hi - 1, c);
        let q = ch_sq_sum(img, y, lo, hi - 1, c);
        let k = hi - 1 - lo;
        let x = img.pix(hi - 1, y, c) as int;
        assert((s + x) * (s + x) <= (k + 1) * (q + x * x)) by (nonlinear_arith)
            requires
                s * s <= k * q,
                0 <= s,
                0 <= q,
                0 <= k,
                0 <= x,
        ;
    }
}

/// The row statistics stay within fixed multiples of the sub-range width.
pub proof fn lemma_row_bounds(img: &Raster, y: int, lo: int, hi: int)
    requires
        lo <= hi,
    ensures
        0 <= row_mean_num(img, y, lo, hi) <= 765 * (hi - lo),
        0 <= row_var_num(img, y, lo, hi) <= 195075 * (hi - lo) * (hi - lo),
{
    lemma_ch_sums_bounds(img, y, lo, hi, 0);
    lemma_ch_sums_bounds(img, y, lo, hi, 1);
    lemma_ch_sums_bounds(img, y, lo, hi, 2);
    lemma_ch_cauchy(img, y, lo, hi, 0);
    lemma_ch_cauchy(img, y, lo, hi, 1);
    lemma_ch_cauchy(img, y, lo, hi, 2);
    let n = hi - lo;
    assert forall|c: int| 0 <= c < 3 implies ch_var_num(img, y, lo, hi, c) <= 65025 * n * n by {
        assert(n * ch_sq_sum(img, y, lo, hi, c) <= 65025 * n * n) by (nonlinear_arith)
            requires
                0 <= n,
                0 <= ch_sq_sum(img, y, lo, hi, c) <= 65025 * n,
        ;
        assert(0 <= ch_sum(img, y, lo, hi, c) * ch_sum(img, y, lo, hi, c)) by (nonlinear_arith);
    }
    assert(195075 * n * n == 65025 * n * n + 65025 * n * n + 65025 * n * n) by (nonlinear_arith);
}

/// Computes, for one row, the mean numerator and the variance numerator of
/// the columns `[lo, hi)`.
fn row_mean_var(img: &Raster, lo: u32, hi: u32, y: u32) -> (out: (u64, u128))
    requires
        img.wf(),
        lo < hi,
        hi <= img.width,
        y < img.height,
    ensures
        out.0 == row_mean_num(img, y as int, lo as int, hi as int),
        out.1 == row_var_num(img, y as int, lo as int, hi as int),
{
    let mut sr: u64 = 0;
    let mut sg: u64 = 0;
    let mut sb: u64 = 0;
    let mut qr: u64 = 0;
    let mut qg: u64 = 0;
    let mut qb: u64 = 0;
    let mut x: u32 = lo;
    while x < hi
        invariant
            img.wf(),
            lo <= x <= hi,
            hi <= img.width,
            y < img.height,
            sr == ch_sum(img, y as int, lo as int, x as int, 0),
            sg == ch_sum(img, y as int, lo as int, x as int, 1),
            sb == ch_sum(img, y as int, lo as int, x as int, 2),
            qr == ch_sq_sum(img, y as int, lo as int, x as int, 0),
            qg == ch_sq_sum(img, y as int, lo as int, x as int, 1),
            qb == ch_sq_sum(img, y as int, lo as int, x as int, 2),
            sr <= 255 * ((x - lo) as int),
            sg <= 255 * ((x - lo) as int),
            sb <= 255 * ((x - lo) as int),
            qr <= 65025 * ((x - lo) as int),
            qg <= 65025 * ((x - lo) as int),
            qb <= 65025 * ((x - lo) as int),
        decreases hi - x,
    {
        let r = img.get(x, y, 0);
        let g = img.get(x, y, 1);
        let b = img.get(x, y, 2);
        proof {
            assert((r as int) * (r as int) <= 65025) by (nonlinear_arith)
                requires
                    0 <= (r as int) <= 255,
            ;
            assert((g as int) * (g as int) <= 65025) by (nonlinear_arith)
                requires
                    0 <= (g as int) <= 255,
            ;
            assert((b as int) * (b as int) <= 65025) by (nonlinear_arith)
                requires
                    0 <= (b as int) <= 255,
            ;
        }
        sr = sr + (r as u64);
        sg = sg + (g as u64);
        sb = sb + (b as u64);
        qr = qr + (r as u64) * (r as u64);
        qg = qg + (g as u64) * (g as u64);
        qb = qb + (b as u64) * (b as u64);
        x = x + 1;
    }
    proof {
        lemma_ch_cauchy(img, y as int, lo as int, hi as int, 0);
        lemma_ch_cauchy(img, y as int, lo as int, hi as int, 1);
        lemma_ch_cauchy(img, y as int, lo as int, hi as int, 2);
        lemma_mul_fits(( hi - lo ) as int, qr as int);
        lemma_mul_fits(( hi - lo ) as int, qg as int);
        lemma_mul_fits(( hi - lo ) as int, qb as int);
        lemma_sq_fits(sr as int);
        lemma_sq_fits(sg as int);
        lemma_sq_fits(sb as int);
    }
    let n: u64 = ((hi - lo) as u64);
    let vr: u128 = (n as u128) * (qr as u128) - (sr as u128) * (sr as u128);
    let vg: u128 = (n as u128) * (qg as u128) - (sg as u128) * (sg as u128);
    let vb: u128 = (n as u128) * (qb as u128) - (sb as u128) * (sb as u128);
    let mean: u64 = sr + sg + sb;
    let var: u128 = vr + vg + vb;
    (mean, var)
}

/// A column count times a sum of squares stays far below the `u128` range.
proof fn lemma_mul_fits(n: int, q: int)
    by (nonlinear_arith)
    requires
        0 <= n < 0x1_0000_0000,
        0 <= q <= 65025 * 0x1_0000_0000,
    ensures
        0 <= n * q <= 0xFE01_0000_0000_0000_0000,
{
}

/// The square of a channel sum stays far below the `u128` range.
proof fn lemma_sq_fits(s: int)
    by (nonlinear_arith)
    requires
        0 <= s <= 255 * 0x1_0000_0000,
    ensures
        0 <= s * s <= 0xFE01_0000_0000_0000_0000,
{
}

/// Computes, for every row of the image, the mean numerator and the variance
/// numerator of the columns `[lo, hi)`, in row order.
pub fn get_mean_var(img: &Raster, lo: u32, hi: u32) -> (out: Vec<(u64, u128)>)
    requires
        img.wf(),
        lo < hi,
        hi <= img.width,
    ensures
        out@.len() == img.height as int,
        forall|y: int|
            0 <= y < img.height as int ==> out@[y].0 == row_mean_num(img, y, lo as int, hi as int)
                && out@[y].1 == row_var_num(img, y, lo as int, hi as int),
{
    let mut out: Vec<(u64, u128)> = Vec::new();
    let mut y: u32 = 0;
    while y < img.height
        invariant
            img.wf(),
            lo < hi,
            hi <= img.width,
            y <= img.height,
            out@.len() == y as int,
            forall|j: int|
                0 <= j < y as int ==> out@[j].0 == row_mean_num(img, j, lo as int, hi as int)
                    && out@[j].1 == row_var_num(img, j, lo as int, hi as int),
        decreases img.height - y,
    {
        let mv = row_mean_var(img, lo, hi, y);
        out.push(mv);
        y = y + 1;
    }
    out
}

} // verus!
