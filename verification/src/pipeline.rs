use vstd::prelude::*;
use vstd::arithmetic::div_mod::lemma_fundamental_div_mod;
use crate::config::Config;
use crate::config::SplitError;
use crate::planner::Interval;
use crate::planner::blank_count;
use crate::planner::lemma_blank_count_monotone;
use crate::planner::lemma_plan_coverage;
use crate::planner::lemma_plan_height_bounds;
use crate::planner::plan_from;
use crate::planner::plan_pieces;
use crate::raster::Raster;
use crate::smooth::VAR_NUM_CAP;
use crate::smooth::rolling;
use crate::smooth::window_sum;
use crate::stats::get_mean_var;
use crate::stats::lemma_row_bounds;
use crate::stats::row_var_num;

verus! {

/// The first column covered by a percent bound: `floor(pct/100 * width)`,
/// with the percent clamped to at most 100.
pub open spec fn col_of(width: int, pct: int) -> int {
    (if pct < 100 {
        pct
    } else {
        100
    }) * width / 100
}

/// The scaled blank threshold.  A smoothed row is blank when its average
/// variance — the mean over the window of the unnormalized per-row sums of
/// squared deviations — lies below `thr` thousandths.  The stored numerator
/// of each row is `n` times its sum of squared deviations, with `n` the
/// sub-range width, so the window sum is `n * w` times that average, and
/// multiplying the comparison out gives
/// `1000 * window_sum < thr * n * w` with `w` the window.  This product
/// (saturated to the `u128` range) is the planner's limit.
pub open spec fn limit_of(thr: int, n: int, w: int) -> int {
    if thr * n * w > u128::MAX {
        u128::MAX as int
    } else {
        thr * n * w
    }
}

/// The per-row variance numerators of the image over columns `[lo, hi)`.
pub open spec fn vars_of(img: &Raster, lo: int, hi: int) -> Seq<u128> {
    Seq::new(img.height as nat, |y: int| row_var_num(img, y, lo, hi) as u128)
}

/// The smoothed signal: moving window sums of the variance numerators.
pub open spec fn smoothed_of(img: &Raster, lo: int, hi: int, w: int) -> Seq<u128> {
    Seq::new(
        (img.height - w + 1) as nat,
        |i: int| window_sum(vars_of(img, lo, hi), i, w) as u128,
    )
}

/// Everything a run decides for one image: the validated sub-range, the
/// statistics, the smoothing, and the plan, or the exact error.
pub open spec fn cuts_spec(img: &Raster, cfg: Config) -> Result<Seq<Interval>, SplitError> {
    let lo = col_of(img.width as int, cfg.blank_left as int);
    let hi = col_of(img.width as int, cfg.blank_right as int);
    if cfg.blank_left >= cfg.blank_right || hi <= lo {
        Err(SplitError::InvalidRange)
    } else if !(0 < cfg.blank_height && (cfg.blank_height as int) < img.height as int) {
        Err(SplitError::InvalidWindow)
    } else {
        let s = smoothed_of(img, lo, hi, cfg.blank_height as int);
        let limit = limit_of(
            cfg.blank_var_thr_milli as int,
            hi - lo,
            cfg.blank_height as int,
        ) as u128;
        match plan_from(
            s,
            limit,
            img.height as int,
            cfg.max_height as int,
            cfg.min_height as int,
            cfg.margin as int,
            0,
        ) {
            Ok(ivs) => Ok(ivs),
            Err(p) => Err(SplitError::NoBlankSpace { y_start: p.0 as u32, y_end: p.1 as u32 }),
        }
    }
}

/// The columns measured for blank detection, from the two percent bounds.
pub fn col_bounds(width: u32, blank_left: u32, blank_right: u32) -> (out: (u32, u32))
    ensures
        out.0 == col_of(width as int, blank_left as int),
        out.1 == col_of(width as int, blank_right as int),
        out.0 <= width,
        out.1 <= width,
{
    let l: u64 = if blank_left < 100 {
        blank_left as u64
    } else {
        100
    };
    let r: u64 = if blank_right < 100 {
        blank_right as u64
    } else {
        100
    };
    proof {
        lemma_col_in_width(l as int, width as int);
        lemma_col_in_width(r as int, width as int);
    }
    let lo: u64 = l * (width as u64) / 100;
    let hi: u64 = r * (width as u64) / 100;
    (lo as u32, hi as u32)
}

/// A clamped percent of the width never exceeds the width.
proof fn lemma_col_in_width(p: int, w: int)
    requires
        0 <= p <= 100,
        0 <= w < 0x1_0000_0000,
    ensures
        0 <= p * w <= 100 * w,
        0 <= p * w / 100 <= w,
{
    assert(0 <= p * w <= 100 * w) by (nonlinear_arith)
        requires
            0 <= p <= 100,
            0 <= w,
    ;
    lemma_fundamental_div_mod(p * w, 100);
    assert(100 * (p * w / 100) <= 100 * w);
}

/// The scaled blank threshold, exactly as `limit_of` states it.
pub fn blank_limit(thr_milli: u64, n: u32, w: usize) -> (out: u128)
    requires
        w <= 0x1_0000_0000,
    ensures
        out == limit_of(thr_milli as int, n as int, w as int),
{
    proof {
        assert((thr_milli as int) * (n as int) <= 0xFFFF_FFFF_FFFF_FFFF * 0x1_0000_0000)
            by (nonlinear_arith)
            requires
                0 <= (thr_milli as int) <= 0xFFFF_FFFF_FFFF_FFFF,
                0 <= (n as int) <= 0xFFFF_FFFF,
        ;
    }
    let a: u128 = (thr_milli as u128) * (n as u128);
    match a.checked_mul(w as u128) {
        Some(p) => p,
        None => u128::MAX,
    }
}

/// Raising the blank threshold never lowers the scaled limit.
pub proof fn lemma_limit_monotone(t1: int, t2: int, n: int, w: int)
    requires
        0 <= t1 <= t2,
        0 <= n,
        0 <= w,
    ensures
        limit_of(t1, n, w) <= limit_of(t2, n, w),
{
    assert(t1 * n * w <= t2 * n * w) by (nonlinear_arith)
        requires
            0 <= t1 <= t2,
            0 <= n,
            0 <= w,
    ;
}

/// Computes the whole cut plan of an image, exactly as `cuts_spec` states.
/// Needs `max_height >= 1` and `min_height >= 1` so that every piece has at
/// least one row and the plan reaches the bottom of the image.
#[verifier::loop_isolation(false)]
pub fn plan_cuts(img: &Raster, cfg: &Config) -> (out: Result<Vec<Interval>, SplitError>)
    requires
        img.wf(),
        1 <= cfg.max_height,
        1 <= cfg.min_height,
    ensures
        match out {
            Ok(ivs) => {
                &&& cuts_spec(img, *cfg) == Ok::<Seq<Interval>, SplitError>(ivs@)
                &&& forall|i: int|
                    0 <= i < ivs@.len() ==> (#[trigger] ivs@[i]).y_start <= ivs@[i].crop_end
                        && ivs@[i].crop_end <= img.height
            },
            Err(e) => cuts_spec(img, *cfg) == Err::<Seq<Interval>, SplitError>(e),
        },
{
    if cfg.blank_left >= cfg.blank_right {
        return Err(SplitError::InvalidRange);
    }
    let cols = col_bounds(img.width, cfg.blank_left, cfg.blank_right);
    let lo = cols.0;
    let hi = cols.1;
    if hi <= lo {
        return Err(SplitError::InvalidRange);
    }
    let pairs = get_mean_var(img, lo, hi);
    let mut vars: Vec<u128> = Vec::new();
    let mut y: usize = 0;
    while y < pairs.len()
        invariant
            y <= pairs@.len(),
            vars@.len() == y as int,
            forall|j: int| 0 <= j < y as int ==> vars@[j] == pairs@[j].1,
        decreases pairs@.len() - y,
    {
        let mv = pairs[y].1;
        vars.push(mv);
        y = y + 1;
    }
    proof {
        assert(vars@ =~= vars_of(img, lo as int, hi as int));
        assert forall|k: int| 0 <= k < vars@.len() implies vars@[k] <= VAR_NUM_CAP by {
            lemma_row_bounds(img, k, lo as int, hi as int);
            assert(195075 * ((hi - lo) as int) * ((hi - lo) as int) <= VAR_NUM_CAP)
                by (nonlinear_arith)
                requires
                    0 <= ((hi - lo) as int) <= 0x1_0000_0000,
                    VAR_NUM_CAP == 195075 * 0x1_0000_0000 * 0x1_0000_0000,
            ;
        }
    }
    let smoothed = match rolling(&vars, cfg.blank_height) {
        Ok(r) => r,
        Err(e) => {
            return Err(e);
        },
    };
    proof {
        assert(smoothed@ =~= smoothed_of(img, lo as int, hi as int, cfg.blank_height as int));
    }
    let limit = blank_limit(cfg.blank_var_thr_milli, hi - lo, cfg.blank_height);
    match plan_pieces(&smoothed, limit, img.height, cfg.max_height, cfg.min_height, cfg.margin) {
        Ok(ivs) => {
            proof {
                lemma_plan_coverage(
                    smoothed@,
                    limit,
                    img.height as int,
                    cfg.max_height as int,
                    cfg.min_height as int,
                    cfg.margin as int,
                    0,
                );
            }
            Ok(ivs)
        },
        Err(e) => Err(e),
    }
}

/// The raster `p` is exactly the crop of the rows `[y_start, crop_end)` of
/// the image: the piece an interval stands for.
pub open spec fn piece_matches(img: &Raster, iv: Interval, p: Raster) -> bool {
    &&& p.wf()
    &&& p.width == img.width
    &&& p.height == iv.crop_end - iv.y_start
    &&& p.pixels@ == img.pixels@.subrange(
        3 * (iv.y_start as int) * (img.width as int),
        3 * (iv.crop_end as int) * (img.width as int),
    )
}

/// Crops every planned piece out of the image, in plan order.
pub fn split_pieces(img: &Raster, ivs: &Vec<Interval>) -> (out: Vec<Raster>)
    requires
        img.wf(),
        forall|i: int|
            0 <= i < ivs@.len() ==> ivs@[i].y_start <= ivs@[i].crop_end && ivs@[i].crop_end
                <= img.height,
    ensures
        out@.len() == ivs@.len(),
        forall|i: int| 0 <= i < ivs@.len() ==> piece_matches(img, ivs@[i], out@[i]),
{
    let mut out: Vec<Raster> = Vec::new();
    let mut i: usize = 0;
    while i < ivs.len()
        invariant
            img.wf(),
            forall|k: int|
                0 <= k < ivs@.len() ==> ivs@[k].y_start <= ivs@[k].crop_end && ivs@[k].crop_end
                    <= img.height,
            i <= ivs@.len(),
            out@.len() == i as int,
            forall|k: int| 0 <= k < i as int ==> piece_matches(img, ivs@[k], out@[k]),
        decreases ivs@.len() - i,
    {
        let iv = ivs[i];
        let p = img.crop_rows(iv.y_start, iv.crop_end);
        out.push(p);
        i = i + 1;
    }
    out
}

/// Identical image and interval give identical piece bytes.
pub proof fn lemma_piece_deterministic(img: &Raster, iv: Interval, p1: Raster, p2: Raster)
    requires
        piece_matches(img, iv, p1),
        piece_matches(img, iv, p2),
    ensures
        p1.width == p2.width,
        p1.height == p2.height,
        p1.pixels@ == p2.pixels@,
{
}

/// Coverage of a whole run: a successful plan partitions the rows
/// `[0, height)` exactly — the intervals are non-empty, contiguous, start
/// at row zero and end at the bottom — and every crop stays inside the
/// image, at or below its interval's end.
pub proof fn lemma_cuts_cover(img: &Raster, cfg: Config)
    requires
        1 <= cfg.max_height,
        1 <= cfg.min_height,
        cuts_spec(img, cfg) is Ok,
    ensures
        ({
            let ivs = cuts_spec(img, cfg)->Ok_0;
            &&& (ivs.len() == 0 <==> img.height == 0)
            &&& (img.height > 0 ==> ivs[0].y_start == 0 && ivs[ivs.len() - 1].y_end == img.height)
            &&& forall|i: int|
                0 <= i < ivs.len() ==> (#[trigger] ivs[i]).y_start < ivs[i].y_end <= img.height
            &&& forall|i: int| 0 < i < ivs.len() ==> (#[trigger] ivs[i]).y_start == ivs[i - 1].y_end
            &&& forall|i: int|
                0 <= i < ivs.len() ==> (#[trigger] ivs[i]).y_end <= ivs[i].crop_end <= img.height
        }),
{
    let lo = col_of(img.width as int, cfg.blank_left as int);
    let hi = col_of(img.width as int, cfg.blank_right as int);
    let s = smoothed_of(img, lo, hi, cfg.blank_height as int);
    let limit = limit_of(cfg.blank_var_thr_milli as int, hi - lo, cfg.blank_height as int) as u128;
    lemma_plan_coverage(
        s,
        limit,
        img.height as int,
        cfg.max_height as int,
        cfg.min_height as int,
        cfg.margin as int,
        0,
    );
}

/// Height bounds of a whole run: every non-final interval spans at most
/// `max_height` rows and, as long as the floor does not exceed the
/// ceiling, at least `min_height` rows.
pub proof fn lemma_cuts_height_bounds(img: &Raster, cfg: Config)
    requires
        1 <= cfg.max_height,
        1 <= cfg.min_height,
        cuts_spec(img, cfg) is Ok,
    ensures
        ({
            let ivs = cuts_spec(img, cfg)->Ok_0;
            &&& forall|i: int|
                0 <= i < ivs.len() - 1 ==> (#[trigger] ivs[i]).y_end - ivs[i].y_start
                    <= cfg.max_height
            &&& cfg.min_height <= cfg.max_height ==> forall|i: int|
                0 <= i < ivs.len() - 1 ==> (#[trigger] ivs[i]).y_end - ivs[i].y_start
                    >= cfg.min_height
        }),
{
    let lo = col_of(img.width as int, cfg.blank_left as int);
    let hi = col_of(img.width as int, cfg.blank_right as int);
    let s = smoothed_of(img, lo, hi, cfg.blank_height as int);
    let limit = limit_of(cfg.blank_var_thr_milli as int, hi - lo, cfg.blank_height as int) as u128;
    lemma_plan_height_bounds(
        s,
        limit,
        img.height as int,
        cfg.max_height as int,
        cfg.min_height as int,
        cfg.margin as int,
        0,
    );
}

/// Raising the blank threshold never lowers the number of rows considered
/// blank.
pub proof fn lemma_threshold_monotone(s: Seq<u128>, t1: int, t2: int, n: int, w: int, len: int)
    requires
        0 <= t1 <= t2,
        0 <= n,
        0 <= w,
    ensures
        blank_count(s, limit_of(t1, n, w) as u128, len) <= blank_count(
            s,
            limit_of(t2, n, w) as u128,
            len,
        ),
{
    lemma_limit_monotone(t1, t2, n, w);
    assert(0 <= t1 * n * w) by (nonlinear_arith)
        requires
            0 <= t1,
            0 <= n,
            0 <= w,
    ;
    lemma_blank_count_monotone(s, limit_of(t1, n, w) as u128, limit_of(t2, n, w) as u128, len);
}

/// Identical image and configuration give an identical plan.
pub proof fn lemma_plan_deterministic(
    img: &Raster,
    cfg: Config,
    r1: Result<Seq<Interval>, SplitError>,
    r2: Result<Seq<Interval>, SplitError>,
)
    requires
        r1 == cuts_spec(img, cfg),
        r2 == cuts_spec(img, cfg),
    ensures
        r1 == r2,
{
}

} // verus!
