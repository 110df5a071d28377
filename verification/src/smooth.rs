use vstd::prelude::*;
use crate::config::SplitError;

verus! {

/// Largest variance numerator any row can produce: `195075 * n * n`, with
/// the sub-range width `n` at most the largest `u32`.
pub const VAR_NUM_CAP: u128 = 195075 * 0x1_0000_0000 * 0x1_0000_0000;

/// Sum of the `w` values of `v` starting at index `i`.
pub open spec fn window_sum(v: Seq<u128>, i: int, w: int) -> int
    decreases w,
{
    if w <= 0 {
        0
    } else {
        window_sum(v, i, w - 1) + v[i + w - 1]
    }
}

/// The moving window sums of `v` with window `n`: entry `i` holds the sum of
/// `v[i .. i + n)`, so dividing it by `n` gives the moving average.  The
/// result has `v.len() - n + 1` entries.  Fails with `InvalidWindow` when
/// the window is zero or not smaller than the length.
pub fn rolling(v: &Vec<u128>, n: usize) -> (out: Result<Vec<u128>, SplitError>)
    requires
        v@.len() <= 0x1_0000_0000,
        forall|k: int| 0 <= k < v@.len() ==> v@[k] <= VAR_NUM_CAP,
    ensures
        match out {
            Ok(r) => {
                &&& 0 < n < v@.len()
                &&& r@.len() == v@.len() - n + 1
                &&& forall|i: int| 0 <= i < r@.len() ==> r@[i] == window_sum(v@, i, n as int)
            },
            Err(e) => e == SplitError::InvalidWindow && !(0 < n && n < v@.len()),
        },
{
    proof {
        assert(VAR_NUM_CAP == 0x2_FA03_0000_0000_0000_0000);
    }
    if n == 0 || n >= v.len() {
        return Err(SplitError::InvalidWindow);
    }
    let count: usize = v.len() - n + 1;
    let mut r: Vec<u128> = Vec::new();
    let mut i: usize = 0;
    while i < count
        invariant
            0 < n < v@.len(),
            v@.len() <= 0x1_0000_0000,
            count == v@.len() - n + 1,
            forall|k: int| 0 <= k < v@.len() ==> v@[k] <= VAR_NUM_CAP,
            i <= count,
            r@.len() == i as int,
            forall|k: int| 0 <= k < i as int ==> r@[k] == window_sum(v@, k, n as int),
        decreases count - i,
    {
        let mut acc: u128 = 0;
        let mut j: usize = 0;
        while j < n
            invariant
                0 < n < v@.len(),
                v@.len() <= 0x1_0000_0000,
                i + n <= v@.len(),
                forall|k: int| 0 <= k < v@.len() ==> v@[k] <= VAR_NUM_CAP,
                j <= n,
                acc == window_sum(v@, i as int, j as int),
                acc as int <= (j as int) * 0x2_FA03_0000_0000_0000_0000,
            decreases n - j,
        {
            acc = acc + v[i + j];
            j = j + 1;
        }
        r.push(acc);
        i = i + 1;
    }
    Ok(r)
}

} // verus!
