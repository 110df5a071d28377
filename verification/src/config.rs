use vstd::prelude::*;

verus! {

/// Why a run fails.
#[derive(Debug, Clone, Copy, PartialEq, Eq, Structural)]
pub enum SplitError {
    /// Between the minimum piece height and the candidate cut, every smoothed
    /// row is above the blank threshold: the piece cannot honour both the
    /// height ceiling and the height floor without cutting through content.
    /// `y_start` is the top of the piece, `y_end` the row at which the
    /// backward search gave up.
    NoBlankSpace { y_start: u32, y_end: u32 },
    /// The smoothing window is zero, or not smaller than the image height.
    InvalidWindow,
    /// The horizontal sub-range is empty: the left bound does not lie
    /// strictly below the right bound, or the range rounds down to no column.
    InvalidRange,
}

/// Configuration of a run.  Heights and the margin are in pixel rows; the
/// blank threshold is a variance in thousandths, so the default `100_000`
/// stands for a variance of one hundred; the sub-range bounds are percents of
/// the image width.
#[derive(Debug, Clone, Copy, PartialEq, Eq, Structural)]
pub struct Config {
    /// Ceiling on a piece's height before the blank search.
    pub max_height: u32,
    /// Floor on a piece's height; reaching it without a blank row fails.
    pub min_height: u32,
    /// Extra rows appended below each piece, clamped to the image.
    pub margin: u32,
    /// Rows averaged together when smoothing the variance signal.
    pub blank_height: usize,
    /// Variance threshold in thousandths below which a row is blank.
    pub blank_var_thr_milli: u64,
    /// Left edge of the measured sub-range, as a percent of the width.
    pub blank_left: u32,
    /// Right edge of the measured sub-range, as a percent of the width.
    pub blank_right: u32,
}

impl Default for Config {
    /// The default run: pieces of at most 2000 and at least 1000 rows, no
    /// margin, a 30-row window, a variance threshold of 100, and the whole
    /// width measured.
    fn default() -> (out: Config)
        ensures
            out.max_height == 2000,
            out.min_height == 1000,
            out.margin == 0,
            out.blank_height == 30,
            out.blank_var_thr_milli == 100_000,
            out.blank_left == 0,
            out.blank_right == 100,
    {
        Config {
            max_height: 2000,
            min_height: 1000,
            margin: 0,
            blank_height: 30,
            blank_var_thr_milli: 100_000,
            blank_left: 0,
            blank_right: 100,
        }
    }
}

} // verus!
