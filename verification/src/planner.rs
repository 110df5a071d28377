use vstd::prelude::*;
use crate::config::SplitError;

verus! {

/// One planned piece: the rows `[y_start, y_end)`, with the crop extended
/// below to `crop_end == min(y_end + margin, height)`.
#[derive(Debug, Clone, Copy, PartialEq, Eq, Structural)]
pub struct Interval {
    pub y_start: u32,
    pub y_end: u32,
    pub crop_end: u32,
}

/// Whether smoothed row `y` lies in a blank band: its window sum, brought to
/// thousandths, falls below `limit`.  Rows beyond the end of the signal
/// cannot be evaluated and count as non-blank.
pub open spec fn blank_at(s: Seq<u128>, limit: u128, y: int) -> bool {
    0 <= y < s.len() && 1000 * s[y] < limit
}

/// The backward search for a safe cut below the candidate row `y`: a blank
/// row is a cut (`Ok`); at a non-blank row the search walks down, and gives
/// up (`Err`, carrying that row) as soon as decrementing would make the
/// piece shorter than `min_h` rows.
pub open spec fn cut_search(s: Seq<u128>, limit: u128, y_start: int, y: int, min_h: int) -> Result<
    int,
    int,
>
    decreases y - y_start,
    when 1 <= min_h && y_start <= y
{
    if blank_at(s, limit, y) {
        Ok(y)
    } else if y - y_start <= min_h {
        Err(y)
    } else {
        cut_search(s, limit, y_start, y - 1, min_h)
    }
}

/// Where the crop of a piece ending at `y_end` stops: `margin` rows lower,
/// clamped to the image.
pub open spec fn crop_of(y_end: int, margin: int, height: int) -> u32 {
    (if y_end + margin < height {
        y_end + margin
    } else {
        height
    }) as u32
}

/// The interval of a piece `[y_start, y_end)` of an image of `height` rows,
/// with the crop end extended by `margin` and clamped to the image.
pub open spec fn piece(y_start: int, y_end: int, margin: int, height: int) -> Interval {
    Interval {
        y_start: y_start as u32,
        y_end: y_end as u32,
        crop_end: crop_of(y_end, margin, height),
    }
}

/// The plan for the rows `[y_start, height)`: each piece reaches down at
/// most `max_h` rows, the backward search never accepts a cut nearer than
/// `min_h` rows to the piece's start, and the final piece is taken without
/// a search.  An `Err` carries the piece's start and the row at which the
/// search gave up.
pub open spec fn plan_from(
    s: Seq<u128>,
    limit: u128,
    height: int,
    max_h: int,
    min_h: int,
    margin: int,
    y_start: int,
) -> Result<Seq<Interval>, (int, int)>
    decreases height - y_start,
    when 1 <= max_h && 1 <= min_h
    via plan_from_decreases
{
    if y_start >= height {
        Ok(Seq::empty())
    } else {
        let y0 = if y_start + max_h < height {
            y_start + max_h
        } else {
            height
        };
        if y0 == height {
            Ok(seq![piece(y_start, height, margin, height)])
        } else {
            match cut_search(s, limit, y_start, y0, min_h) {
                Err(ye) => Err((y_start, ye)),
                Ok(c) => match plan_from(s, limit, height, max_h, min_h, margin, c) {
                    Ok(rest) => Ok(seq![piece(y_start, c, margin, height)] + rest),
                    Err(e) => Err(e),
                },
            }
        }
    }
}

#[via_fn]
proof fn plan_from_decreases(
    s: Seq<u128>,
    limit: u128,
    height: int,
    max_h: int,
    min_h: int,
    margin: int,
    y_start: int,
) {
    if y_start < height {
        let y0 = if y_start + max_h < height {
            y_start + max_h
        } else {
            height
        };
        if y0 != height {
            lemma_cut_search(s, limit, y_start, y0, min_h);
        }
    }
}

/// What the backward search returns.  A cut is the highest blank row at or
/// below the candidate `y`, and never less than `min_h` rows above
/// `y_start`; a failure happens at exactly `min(y, y_start + min_h)`, and
/// then no row from there up to the candidate is blank.
pub proof fn lemma_cut_search(s: Seq<u128>, limit: u128, y_start: int, y: int, min_h: int)
    requires
        1 <= min_h,
        y_start <= y,
    ensures
        match cut_search(s, limit, y_start, y, min_h) {
            Ok(c) => {
                &&& blank_at(s, limit, c)
                &&& c <= y
                &&& if y_start + min_h <= y {
                    y_start + min_h <= c
                } else {
                    c == y
                }
                &&& forall|j: int| c < j <= y ==> !blank_at(s, limit, j)
            },
            Err(ye) => {
                &&& ye == if y_start + min_h <= y {
                    y_start + min_h
                } else {
                    y
                }
                &&& forall|j: int| ye <= j <= y ==> !blank_at(s, limit, j)
            },
        },
    decreases y - y_start,
{
    if blank_at(s, limit, y) {
    } else if y - y_start <= min_h {
    } else {
        lemma_cut_search(s, limit, y_start, y - 1, min_h);
    }
}

/// Coverage: a successful plan partitions the rows `[y_start, height)`
/// exactly.  The intervals are non-empty and contiguous, the first starts
/// at `y_start`, the last ends at `height`, and each crop end extends its
/// interval by at most `margin`, clamped to the image.
pub proof fn lemma_plan_coverage(
    s: Seq<u128>,
    limit: u128,
    height: int,
    max_h: int,
    min_h: int,
    margin: int,
    y_start: int,
)
    requires
        1 <= max_h,
        1 <= min_h,
        0 <= y_start <= height,
        height < 0x1_0000_0000,
        0 <= margin,
        plan_from(s, limit, height, max_h, min_h, margin, y_start) is Ok,
    ensures
        ({
            let ivs = plan_from(s, limit, height, max_h, min_h, margin, y_start)->Ok_0;
            &&& (ivs.len() == 0 <==> y_start == height)
            &&& (y_start < height ==> ivs[0].y_start == y_start && ivs[ivs.len() - 1].y_end
                == height)
            &&& forall|i: int|
                0 <= i < ivs.len() ==> (#[trigger] ivs[i]).y_start < ivs[i].y_end <= height
            &&& forall|i: int| 0 < i < ivs.len() ==> (#[trigger] ivs[i]).y_start == ivs[i - 1].y_end
            &&& forall|i: int|
                0 <= i < ivs.len() ==> (#[trigger] ivs[i]).crop_end == crop_of(
                    ivs[i].y_end as int,
                    margin,
                    height,
                )
        }),
    decreases height - y_start,
{
    if y_start < height {
        let y0 = if y_start + max_h < height {
            y_start + max_h
        } else {
            height
        };
        if y0 != height {
            lemma_cut_search(s, limit, y_start, y0, min_h);
            let c = cut_search(s, limit, y_start, y0, min_h)->Ok_0;
            lemma_plan_coverage(s, limit, height, max_h, min_h, margin, c);
        }
    }
}

/// Height bounds: every non-final interval spans at most `max_h` rows and,
/// as long as the floor does not exceed the ceiling, at least `min_h` rows.
pub proof fn lemma_plan_height_bounds(
    s: Seq<u128>,
    limit: u128,
    height: int,
    max_h: int,
    min_h: int,
    margin: int,
    y_start: int,
)
    requires
        1 <= max_h,
        1 <= min_h,
        0 <= y_start <= height,
        height < 0x1_0000_0000,
        0 <= margin,
        plan_from(s, limit, height, max_h, min_h, margin, y_start) is Ok,
    ensures
        ({
            let ivs = plan_from(s, limit, height, max_h, min_h, margin, y_start)->Ok_0;
            &&& forall|i: int|
                0 <= i < ivs.len() - 1 ==> (#[trigger] ivs[i]).y_end - ivs[i].y_start <= max_h
            &&& min_h <= max_h ==> forall|i: int|
                0 <= i < ivs.len() - 1 ==> (#[trigger] ivs[i]).y_end - ivs[i].y_start >= min_h
        }),
    decreases height - y_start,
{
    if y_start < height {
        let y0 = if y_start + max_h < height {
            y_start + max_h
        } else {
            height
        };
        if y0 != height {
            lemma_cut_search(s, limit, y_start, y0, min_h);
            let c = cut_search(s, limit, y_start, y0, min_h)->Ok_0;
            lemma_plan_coverage(s, limit, height, max_h, min_h, margin, c);
            lemma_plan_height_bounds(s, limit, height, max_h, min_h, margin, c);
        }
    }
}

/// The number of blank rows among the first `n` smoothed rows.
pub open spec fn blank_count(s: Seq<u128>, limit: u128, n: int) -> int
    decreases n,
{
    if n <= 0 {
        0
    } else {
        blank_count(s, limit, n - 1) + (if blank_at(s, limit, n - 1) {
            1int
        } else {
            0int
        })
    }
}

/// Raising the threshold keeps every blank row blank.
pub proof fn lemma_blank_monotone(s: Seq<u128>, l1: u128, l2: u128, y: int)
    requires
        l1 <= l2,
    ensures
        blank_at(s, l1, y) ==> blank_at(s, l2, y),
{
}

/// Raising the threshold never lowers the number of blank rows.
pub proof fn lemma_blank_count_monotone(s: Seq<u128>, l1: u128, l2: u128, n: int)
    requires
        l1 <= l2,
    ensures
        blank_count(s, l1, n) <= blank_count(s, l2, n),
    decreases n,
{
    if n > 0 {
        lemma_blank_count_monotone(s, l1, l2, n - 1);
    }
}

/// Whether smoothed row `y` is blank, exactly as `blank_at` states it.
pub fn is_blank(s: &Vec<u128>, limit: u128, y: u32) -> (b: bool)
    ensures
        b == blank_at(s@, limit, y as int),
{
    let yi = y as usize;
    if yi >= s.len() {
        return false;
    }
    match s[yi].checked_mul(1000) {
        Some(p) => p < limit,
        None => false,
    }
}

/// Walks down from the candidate row `y0` to the first blank row, exactly
/// as `cut_search` states.
fn search_cut(s: &Vec<u128>, limit: u128, y_start: u32, y0: u32, min_height: u32) -> (out: Result<
    u32,
    u32,
>)
    requires
        1 <= min_height,
        y_start <= y0,
    ensures
        match out {
            Ok(c) => {
                &&& cut_search(s@, limit, y_start as int, y0 as int, min_height as int) == Ok::<
                    int,
                    int,
                >(c as int)
                &&& y_start <= c <= y0
            },
            Err(ye) => {
                &&& cut_search(s@, limit, y_start as int, y0 as int, min_height as int) == Err::<
                    int,
                    int,
                >(ye as int)
                &&& y_start <= ye <= y0
            },
        },
{
    let mut ye: u32 = y0;
    loop
        invariant
            y_start <= ye <= y0,
            1 <= min_height,
            cut_search(s@, limit, y_start as int, ye as int, min_height as int) == cut_search(
                s@,
                limit,
                y_start as int,
                y0 as int,
                min_height as int,
            ),
        decreases ye,
    {
        if is_blank(s, limit, ye) {
            return Ok(ye);
        }
        if ye - y_start <= min_height {
            return Err(ye);
        }
        ye = ye - 1;
    }
}

/// Plans the pieces of an image of `height` rows from the smoothed window
/// sums `s` and the scaled blank threshold `limit`, exactly as `plan_from`
/// states from row 0.  Needs `max_height >= 1` and `min_height >= 1`:
/// every piece then has at least one row, so the plan reaches the bottom of
/// the image.
#[verifier::loop_isolation(false)]
pub fn plan_pieces(
    s: &Vec<u128>,
    limit: u128,
    height: u32,
    max_height: u32,
    min_height: u32,
    margin: u32,
) -> (out: Result<Vec<Interval>, SplitError>)
    requires
        1 <= max_height,
        1 <= min_height,
    ensures
        match out {
            Ok(ivs) => plan_from(
                s@,
                limit,
                height as int,
                max_height as int,
                min_height as int,
                margin as int,
                0,
            ) == Ok::<Seq<Interval>, (int, int)>(ivs@),
            Err(e) => {
                &&& plan_from(
                    s@,
                    limit,
                    height as int,
                    max_height as int,
                    min_height as int,
                    margin as int,
                    0,
                ) matches Err(p)
                &&& 0 <= p.0 < 0x1_0000_0000
                &&& 0 <= p.1 < 0x1_0000_0000
                &&& e == (SplitError::NoBlankSpace { y_start: p.0 as u32, y_end: p.1 as u32 })
            },
        },
{
    let ghost sv = s@;
    let ghost h = height as int;
    let ghost mxh = max_height as int;
    let ghost mnh = min_height as int;
    let ghost mg = margin as int;
    let mut acc: Vec<Interval> = Vec::new();
    let mut y_start: u32 = 0;
    proof {
        if plan_from(sv, limit, h, mxh, mnh, mg, 0) is Ok {
            assert(Seq::<Interval>::empty() + plan_from(sv, limit, h, mxh, mnh, mg, 0)->Ok_0
                =~= plan_from(sv, limit, h, mxh, mnh, mg, 0)->Ok_0);
        }
    }
    while y_start < height
        invariant
            1 <= max_height,
            1 <= min_height,
            y_start <= height,
            sv == s@,
            h == height as int,
            mxh == max_height as int,
            mnh == min_height as int,
            mg == margin as int,
            ({
                let full = plan_from(sv, limit, h, mxh, mnh, mg, 0);
                let rest = plan_from(sv, limit, h, mxh, mnh, mg, y_start as int);
                match rest {
                    Ok(r) => full == Ok::<Seq<Interval>, (int, int)>(acc@ + r),
                    Err(e) => full == Err::<Seq<Interval>, (int, int)>(e),
                }
            }),
        decreases height - y_start,
    {
        let ghost ys_old = y_start as int;
        let y0: u32 = if height - y_start > max_height {
            y_start + max_height
        } else {
            height
        };
        if y0 == height {
            let iv = Interval { y_start, y_end: height, crop_end: height };
            proof {
                assert(piece(ys_old, h, mg, h) == iv);
                assert(plan_from(sv, limit, h, mxh, mnh, mg, ys_old) == Ok::<
                    Seq<Interval>,
                    (int, int),
                >(seq![iv]));
                assert(acc@ + seq![iv] =~= acc@.push(iv));
                assert(acc@.push(iv) + Seq::<Interval>::empty() =~= acc@.push(iv));
            }
            acc.push(iv);
            y_start = height;
        } else {
            match search_cut(s, limit, y_start, y0, min_height) {
                Err(ye) => {
                    proof {
                        assert(plan_from(sv, limit, h, mxh, mnh, mg, ys_old) == Err::<
                            Seq<Interval>,
                            (int, int),
                        >((ys_old, ye as int)));
                    }
                    return Err(SplitError::NoBlankSpace { y_start, y_end: ye });
                },
                Ok(ye) => {
                    proof {
                        lemma_cut_search(sv, limit, ys_old, y0 as int, mnh);
                    }
                    let crop_end: u32 = if height - ye > margin {
                        ye + margin
                    } else {
                        height
                    };
                    let iv = Interval { y_start, y_end: ye, crop_end };
                    proof {
                        assert(piece(ys_old, ye as int, mg, h) == iv);
                        let rest = plan_from(sv, limit, h, mxh, mnh, mg, ye as int);
                        if rest is Ok {
                            assert(plan_from(sv, limit, h, mxh, mnh, mg, ys_old) == Ok::<
                                Seq<Interval>,
                                (int, int),
                            >(seq![iv] + rest->Ok_0));
                            assert(acc@ + (seq![iv] + rest->Ok_0) =~= acc@.push(iv)
                                + rest->Ok_0);
                        } else {
                            assert(plan_from(sv, limit, h, mxh, mnh, mg, ys_old) == rest);
                        }
                    }
                    acc.push(iv);
                    y_start = ye;
                },
            }
        }
    }
    proof {
        assert(plan_from(sv, limit, h, mxh, mnh, mg, y_start as int) == Ok::<
            Seq<Interval>,
            (int, int),
        >(Seq::empty()));
        assert(acc@ + Seq::<Interval>::empty() =~= acc@);
    }
    Ok(acc)
}

} // verus!
