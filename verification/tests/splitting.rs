use blank_split::config::Config;
use blank_split::config::SplitError;
use blank_split::naming::decimal_padded;
use blank_split::naming::output_name;
use blank_split::pipeline::blank_limit;
use blank_split::pipeline::col_bounds;
use blank_split::pipeline::plan_cuts;
use blank_split::pipeline::split_pieces;
use blank_split::raster::Raster;
use blank_split::smooth::rolling;
use blank_split::stats::get_mean_var;

/// Appends one row of a single color.
fn push_uniform_row(pixels: &mut Vec<u8>, width: u32, val: u8) {
    for _ in 0..width {
        pixels.push(val);
        pixels.push(val);
        pixels.push(val);
    }
}

/// Appends one high-variance row: columns alternate black and white.
fn push_noisy_row(pixels: &mut Vec<u8>, width: u32) {
    for x in 0..width {
        let v = if x % 2 == 0 { 0 } else { 255 };
        pixels.push(v);
        pixels.push(v);
        pixels.push(v);
    }
}

/// Appends one mildly varying row: columns alternate 100 and 102.
fn push_mild_row(pixels: &mut Vec<u8>, width: u32) {
    for x in 0..width {
        let v = if x % 2 == 0 { 100 } else { 102 };
        pixels.push(v);
        pixels.push(v);
        pixels.push(v);
    }
}

/// A 10-wide image whose rows inside one of the given bands are uniform
/// white while all others alternate black and white.
fn image_with_blank_bands(height: u32, bands: &[(u32, u32)]) -> Raster {
    let width = 10;
    let mut pixels = Vec::new();
    for y in 0..height {
        if bands.iter().any(|&(from, to)| y >= from && y < to) {
            push_uniform_row(&mut pixels, width, 255);
        } else {
            push_noisy_row(&mut pixels, width);
        }
    }
    Raster::new(width, height, pixels).unwrap()
}

fn image_with_blank_band(height: u32, blank_from: u32, blank_to: u32) -> Raster {
    image_with_blank_bands(height, &[(blank_from, blank_to)])
}

fn noisy_image(height: u32) -> Raster {
    image_with_blank_band(height, 0, 0)
}

#[test]
fn scenario_blank_band_gives_two_pieces() {
    let img = image_with_blank_band(3000, 1800, 1850);
    let cfg = Config::default();
    let plan = plan_cuts(&img, &cfg).unwrap();
    assert_eq!(plan.len(), 2);
    assert_eq!(plan[0].y_start, 0);
    assert!(plan[0].y_end >= 1800 && plan[0].y_end < 1850);
    assert_eq!(plan[1].y_start, plan[0].y_end);
    assert_eq!(plan[1].y_end, 3000);
    // the search keeps the piece as tall as possible: the cut sits at the
    // last window that lies wholly inside the blank band
    assert_eq!(plan[0].y_end, 1820);
}

#[test]
fn scenario_short_noisy_image_is_one_piece() {
    let img = noisy_image(1500);
    let cfg = Config::default();
    let plan = plan_cuts(&img, &cfg).unwrap();
    assert_eq!(plan.len(), 1);
    assert_eq!(plan[0].y_start, 0);
    assert_eq!(plan[0].y_end, 1500);
    assert_eq!(plan[0].crop_end, 1500);
}

#[test]
fn scenario_no_blank_space_error() {
    let img = noisy_image(3000);
    let cfg = Config::default();
    let err = plan_cuts(&img, &cfg).unwrap_err();
    // the search gives up at y_start + min_height: decrementing further
    // would make the piece shorter than the floor
    assert_eq!(err, SplitError::NoBlankSpace { y_start: 0, y_end: 1000 });
}

#[test]
fn scenario_inverted_range_rejected() {
    let img = noisy_image(100);
    let mut cfg = Config::default();
    cfg.blank_left = 50;
    cfg.blank_right = 40;
    let err = plan_cuts(&img, &cfg).unwrap_err();
    assert_eq!(err, SplitError::InvalidRange);
}

#[test]
fn scenario_margin_extends_piece() {
    let img = image_with_blank_band(3000, 1800, 1850);
    let mut cfg = Config::default();
    cfg.margin = 50;
    let plan = plan_cuts(&img, &cfg).unwrap();
    assert_eq!(plan.len(), 2);
    assert_eq!(plan[0].y_end, 1820);
    assert_eq!(plan[0].crop_end, 1870);
    assert_eq!(plan[1].crop_end, 3000);
    let pieces = split_pieces(&img, &plan);
    assert_eq!(pieces.len(), 2);
    assert_eq!(pieces[0].height(), 1870);
    assert_eq!(pieces[1].height(), 3000 - 1820);
}

#[test]
fn margin_is_clamped_to_image_bottom() {
    let img = image_with_blank_band(3000, 1800, 1850);
    let mut cfg = Config::default();
    cfg.margin = 5000;
    let plan = plan_cuts(&img, &cfg).unwrap();
    assert_eq!(plan.len(), 2);
    assert_eq!(plan[0].crop_end, 3000);
    assert_eq!(plan[1].crop_end, 3000);
}

#[test]
fn coverage_is_exact_partition() {
    let img = image_with_blank_bands(5000, &[(1700, 1900), (3400, 3600)]);
    let cfg = Config::default();
    let plan = plan_cuts(&img, &cfg).unwrap();
    assert!(plan.len() >= 2);
    assert_eq!(plan[0].y_start, 0);
    assert_eq!(plan[plan.len() - 1].y_end, 5000);
    for w in plan.windows(2) {
        assert_eq!(w[0].y_end, w[1].y_start);
    }
    for iv in &plan {
        assert!(iv.y_start < iv.y_end);
    }
}

#[test]
fn height_bounds_hold() {
    let img = image_with_blank_bands(5000, &[(1700, 1900), (3400, 3600)]);
    let cfg = Config::default();
    let plan = plan_cuts(&img, &cfg).unwrap();
    for iv in &plan[..plan.len() - 1] {
        let len = iv.y_end - iv.y_start;
        assert!(len <= cfg.max_height);
        assert!(len >= cfg.min_height);
    }
}

#[test]
fn identical_inputs_give_identical_output() {
    let img = image_with_blank_band(3000, 1800, 1850);
    let cfg = Config::default();
    let p1 = plan_cuts(&img, &cfg).unwrap();
    let p2 = plan_cuts(&img, &cfg).unwrap();
    assert_eq!(p1, p2);
    let a = split_pieces(&img, &p1);
    let b = split_pieces(&img, &p2);
    assert_eq!(a.len(), b.len());
    for (x, y) in a.iter().zip(b.iter()) {
        assert_eq!(x.width(), y.width());
        assert_eq!(x.height(), y.height());
        for yy in 0..x.height() {
            for xx in 0..x.width() {
                for c in 0..3 {
                    assert_eq!(x.get(xx, yy, c), y.get(xx, yy, c));
                }
            }
        }
    }
}

#[test]
fn rolling_length_is_len_minus_window_plus_one() {
    let v: Vec<u128> = vec![1, 2, 3, 4, 5];
    let r = rolling(&v, 2).unwrap();
    assert_eq!(r.len(), 4);
    let r = rolling(&v, 4).unwrap();
    assert_eq!(r.len(), 2);
}

#[test]
fn rolling_values_are_window_sums() {
    let v: Vec<u128> = vec![1, 2, 3, 4, 5];
    let r = rolling(&v, 2).unwrap();
    assert_eq!(r, vec![3, 5, 7, 9]);
    let r = rolling(&v, 3).unwrap();
    assert_eq!(r, vec![6, 9, 12]);
}

#[test]
fn rolling_rejects_bad_windows() {
    let v: Vec<u128> = vec![1, 2, 3, 4, 5];
    assert_eq!(rolling(&v, 0).unwrap_err(), SplitError::InvalidWindow);
    assert_eq!(rolling(&v, 5).unwrap_err(), SplitError::InvalidWindow);
    assert_eq!(rolling(&v, 6).unwrap_err(), SplitError::InvalidWindow);
}

#[test]
fn window_too_large_for_image_rejected() {
    let img = noisy_image(20);
    let cfg = Config::default();  // window 30 >= height 20
    assert_eq!(plan_cuts(&img, &cfg).unwrap_err(), SplitError::InvalidWindow);
    let mut cfg = Config::default();
    cfg.blank_height = 0;
    let img = noisy_image(100);
    assert_eq!(plan_cuts(&img, &cfg).unwrap_err(), SplitError::InvalidWindow);
}

#[test]
fn collapsed_subrange_rejected() {
    // 0..5 percent of a 10-wide image rounds down to no column at all
    let img = noisy_image(100);
    let mut cfg = Config::default();
    cfg.blank_left = 0;
    cfg.blank_right = 5;
    assert_eq!(plan_cuts(&img, &cfg).unwrap_err(), SplitError::InvalidRange);
    let mut cfg = Config::default();
    cfg.blank_left = 50;
    cfg.blank_right = 50;
    assert_eq!(plan_cuts(&img, &cfg).unwrap_err(), SplitError::InvalidRange);
}

fn mild_image(height: u32) -> Raster {
    // every row has a small but non-zero variance: the sum of squared
    // deviations is 10 per channel, 30 per row (stored numerator 100 and
    // 300, being 10 columns times that sum)
    let width = 10;
    let mut pixels = Vec::new();
    for _ in 0..height {
        push_mild_row(&mut pixels, width);
    }
    Raster::new(width, height, pixels).unwrap()
}

#[test]
fn raising_threshold_can_only_add_blank_rows() {
    let img = mild_image(3000);
    let mut low = Config::default();
    low.blank_var_thr_milli = 100;  // 0.1: nothing is blank
    assert!(matches!(
        plan_cuts(&img, &low).unwrap_err(),
        SplitError::NoBlankSpace { .. }
    ));
    let high = Config::default();  // 100.0: everything is blank
    let plan = plan_cuts(&img, &high).unwrap();
    assert_eq!(plan.len(), 2);
    assert_eq!(plan[0].y_end, 2000);
}

#[test]
fn threshold_compares_the_unnormalized_variance() {
    // every smoothed value is exactly 30, the per-row sum of squared
    // deviations, NOT divided by the 10-column sub-range width; the strict
    // comparison flips precisely at a threshold of 30
    let img = mild_image(3000);
    let mut at = Config::default();
    at.blank_var_thr_milli = 30_000;  // 30.0: 30 < 30 fails, nothing blank
    assert_eq!(
        plan_cuts(&img, &at).unwrap_err(),
        SplitError::NoBlankSpace { y_start: 0, y_end: 1000 }
    );
    let mut above = Config::default();
    above.blank_var_thr_milli = 30_001;  // 30.001: everything is blank
    let plan = plan_cuts(&img, &above).unwrap();
    assert_eq!(plan[0].y_end, 2000);
}

#[test]
fn statistics_exact_values() {
    // row 0: one black and one white pixel; row 1: uniform gray
    let mut pixels = Vec::new();
    pixels.extend_from_slice(&[0, 0, 0, 255, 255, 255]);
    pixels.extend_from_slice(&[7, 7, 7, 7, 7, 7]);
    let img = Raster::new(2, 2, pixels).unwrap();
    let stats = get_mean_var(&img, 0, 2);
    assert_eq!(stats.len(), 2);
    // mean numerator: n * (sum of channel means) with n == 2
    assert_eq!(stats[0].0, 765);
    // variance numerator per channel: 2 * 65025 - 255^2 == 65025
    assert_eq!(stats[0].1, 3 * 65025);
    assert_eq!(stats[1].0, 42);
    assert_eq!(stats[1].1, 0);
}

#[test]
fn statistics_respect_subrange() {
    // the noisy half lies outside the measured columns
    let width = 10;
    let mut pixels = Vec::new();
    for x in 0..width {
        let v = if x < 5 { 200 } else if x % 2 == 0 { 0 } else { 255 };
        pixels.push(v);
        pixels.push(v);
        pixels.push(v);
    }
    let img = Raster::new(width, 1, pixels).unwrap();
    let stats = get_mean_var(&img, 0, 5);
    assert_eq!(stats[0].1, 0);
    let stats = get_mean_var(&img, 5, 10);
    assert!(stats[0].1 > 0);
}

#[test]
fn col_bounds_exact() {
    assert_eq!(col_bounds(1000, 25, 75), (250, 750));
    assert_eq!(col_bounds(10, 0, 100), (0, 10));
    // percents above 100 are clamped
    assert_eq!(col_bounds(10, 0, 4000), (0, 10));
    // rounding is floor
    assert_eq!(col_bounds(10, 19, 99), (1, 9));
}

#[test]
fn blank_limit_exact() {
    // threshold in thousandths, times sub-range width, times window
    assert_eq!(blank_limit(100_000, 10, 30), 30_000_000);
    assert_eq!(blank_limit(0, 10, 30), 0);
    assert_eq!(
        blank_limit(u64::MAX, u32::MAX, 0x1_0000_0000),
        (u64::MAX as u128) * (u32::MAX as u128) * 0x1_0000_0000u128
    );
}

#[test]
fn rows_past_the_smoothed_signal_count_as_content() {
    // the smoothed signal has height - window + 1 == 2971 entries; a
    // candidate cut at 2990 lies past its end, counts as non-blank, and the
    // search walks down into the band at 2900..2960
    let img = image_with_blank_bands(3000, &[(2900, 2960)]);
    let mut cfg = Config::default();
    cfg.max_height = 2990;
    let plan = plan_cuts(&img, &cfg).unwrap();
    assert_eq!(plan.len(), 2);
    assert_eq!(plan[0].y_end, 2930);
    assert_eq!(plan[1].y_end, 3000);
}

#[test]
fn blank_row_below_the_floor_is_never_taken() {
    // the only blank window starts one row above the floor; the search
    // never looks below y_start + min_height, so the plan fails there
    let img = image_with_blank_bands(3000, &[(999, 1029)]);
    let cfg = Config::default();
    let err = plan_cuts(&img, &cfg).unwrap_err();
    assert_eq!(err, SplitError::NoBlankSpace { y_start: 0, y_end: 1000 });
}

#[test]
fn blank_row_exactly_at_the_floor_is_accepted() {
    // a blank window at exactly y_start + min_height is the last row the
    // search examines, and it is taken: the piece meets the floor
    let img = image_with_blank_bands(3000, &[(1000, 1030)]);
    let cfg = Config::default();
    let plan = plan_cuts(&img, &cfg).unwrap();
    assert_eq!(plan.len(), 2);
    assert_eq!(plan[0].y_end, 1000);
    assert_eq!(plan[1].y_end, 3000);
}

#[test]
fn floor_of_one_row_is_enough() {
    let img = image_with_blank_band(3000, 1800, 1850);
    let mut cfg = Config::default();
    cfg.min_height = 1;
    let plan = plan_cuts(&img, &cfg).unwrap();
    assert_eq!(plan.len(), 2);
    assert_eq!(plan[0].y_end, 1820);
    assert_eq!(plan[1].y_end, 3000);
}

#[test]
fn empty_image_has_no_valid_window() {
    let img = Raster::new(10, 0, Vec::new()).unwrap();
    let cfg = Config::default();
    assert_eq!(plan_cuts(&img, &cfg).unwrap_err(), SplitError::InvalidWindow);
}

#[test]
fn raster_new_checks_length() {
    assert!(Raster::new(2, 2, vec![0; 12]).is_some());
    assert!(Raster::new(2, 2, vec![0; 11]).is_none());
    assert!(Raster::new(2, 2, vec![0; 13]).is_none());
}

#[test]
fn output_names_are_zero_padded() {
    assert_eq!(output_name(0, 1, b"png"), b"00-01.png".to_vec());
    assert_eq!(output_name(12, 7, b"jpg"), b"12-07.jpg".to_vec());
    // indices past 99 simply grow wider
    assert_eq!(output_name(123, 100, b"png"), b"123-100.png".to_vec());
    assert_eq!(output_name(0, 0, b""), b"00-00.".to_vec());
}

#[test]
fn decimal_padding_is_exact() {
    assert_eq!(decimal_padded(0, 2), b"00".to_vec());
    assert_eq!(decimal_padded(9, 2), b"09".to_vec());
    assert_eq!(decimal_padded(10, 2), b"10".to_vec());
    assert_eq!(decimal_padded(4294967295, 2), b"4294967295".to_vec());
    assert_eq!(decimal_padded(5, 1), b"5".to_vec());
    assert_eq!(decimal_padded(5, 4), b"0005".to_vec());
}

#[test]
fn crop_copies_the_right_rows() {
    // 2 wide, 3 tall; every byte distinct
    let pixels: Vec<u8> = (0u8..18).collect();
    let img = Raster::new(2, 3, pixels).unwrap();
    let out = img.crop_rows(1, 3);
    assert_eq!(out.width(), 2);
    assert_eq!(out.height(), 2);
    for y in 0..2 {
        for x in 0..2 {
            for c in 0..3 {
                assert_eq!(out.get(x, y, c), img.get(x, y + 1, c));
            }
        }
    }
    let empty = img.crop_rows(2, 2);
    assert_eq!(empty.height(), 0);
}
