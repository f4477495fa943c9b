use stockwatch::detectors::{
    increasing_slope, jumps_in_series, percent_change, recurring_events_in_series, slope,
    smooth_series, split_series_into_seasons, vecs_to_slices,
};
use stockwatch::Ratio;

fn ratio_f64(r: Ratio) -> f64 {
    r.num as f64 / r.den as f64
}

#[test]
fn slope_of_empty_series_is_zero() {
    let empty: Vec<i64> = Vec::new();
    let r = slope(&empty, 3);
    assert_eq!(r.num, 0);
}

#[test]
fn slope_with_zero_window_is_zero() {
    let series: Vec<i64> = vec![100, 101, 102];
    let r = slope(&series, 0);
    assert_eq!(r.num, 0);
}

#[test]
fn slope_with_window_past_length_is_zero() {
    let series: Vec<i64> = vec![100, 101, 102];
    let r = slope(&series, 4);
    assert_eq!(r.num, 0);
}

#[test]
fn slope_averages_the_last_pairs() {
    // Last 3 pairs of [10, 20, 40, 30, 70]: (40-20) + (30-40) + (70-30) over 3.
    let series: Vec<i64> = vec![10, 20, 40, 30, 70];
    let r = slope(&series, 3);
    assert_eq!(r.num, 50);
    assert_eq!(r.den, 3);
}

#[test]
fn percent_change_is_exact() {
    let r = percent_change(100, 150);
    assert_eq!(r.num, 5000);
    assert_eq!(r.den, 100);
    assert!((ratio_f64(r) - 50.0).abs() < 1e-9);
}

#[test]
fn jump_and_drop_are_detected_symmetrically() {
    // Prices [100, 150, 100] with both thresholds at 10 percent: a jump of
    // about +50.0 percent at index 1, a drop of about -33.33 percent at
    // index 2.
    let timestamps: Vec<i64> = vec![1000, 2000, 3000];
    let series: Vec<i64> = vec![100, 150, 100];
    let events = jumps_in_series("ACME", &timestamps, &series, 1000, 1000);
    assert_eq!(events.len(), 2);
    assert_eq!(events[0].datetime, 2000);
    assert_eq!(events[0].symbol, "ACME");
    assert!((ratio_f64(events[0].percent) - 50.0).abs() < 1e-9);
    assert_eq!(events[1].datetime, 3000);
    assert!((ratio_f64(events[1].percent) - (-100.0 / 3.0)).abs() < 1e-9);
}

#[test]
fn jumps_with_mismatched_arrays_are_empty() {
    let timestamps: Vec<i64> = vec![1000, 2000];
    let series: Vec<i64> = vec![100, 150, 100];
    let events = jumps_in_series("ACME", &timestamps, &series, 1000, 1000);
    assert!(events.is_empty());
}

#[test]
fn jumps_below_threshold_are_silent() {
    let timestamps: Vec<i64> = vec![1, 2, 3];
    let series: Vec<i64> = vec![100, 105, 100];
    // 5 percent moves, thresholds at 10 percent.
    let events = jumps_in_series("ACME", &timestamps, &series, 1000, 1000);
    assert!(events.is_empty());
}

#[test]
fn trend_fires_on_accelerating_rise() {
    // Slopes over the last 5, 10 and 15 pairs: 21/5 > 26/10 > 31/15, all
    // positive, and the change from 5 bars ago is +210 percent.
    let series: Vec<i64> = vec![0, 1, 2, 3, 4, 5, 6, 7, 8, 9, 10, 13, 16, 20, 25, 31];
    let r = increasing_slope(&series, 1000, 1000);
    assert_eq!(r.num, 2100);
    assert_eq!(r.den, 10);
}

#[test]
fn trend_needs_fifteen_points() {
    let series: Vec<i64> = vec![1, 2, 3, 4, 5, 6, 7, 8, 9, 10, 11, 12, 13, 14];
    let r = increasing_slope(&series, 10, 10);
    assert_eq!(r.num, 0);
}

#[test]
fn trend_is_silent_on_a_flat_series() {
    let series: Vec<i64> = vec![100; 20];
    let r = increasing_slope(&series, 10, 10);
    assert_eq!(r.num, 0);
}

#[test]
fn smoothing_averages_blocks_exactly() {
    let series: Vec<i64> = vec![1, 2, 3, 4, 5];
    let r = smooth_series(&series, 2);
    assert_eq!(r.len(), 3);
    assert_eq!((r[0].num, r[0].den), (3, 2));
    assert_eq!((r[1].num, r[1].den), (7, 2));
    assert_eq!((r[2].num, r[2].den), (5, 1));
}

#[test]
fn smoothing_with_zero_width_is_empty() {
    let series: Vec<i64> = vec![1, 2, 3];
    let r = smooth_series(&series, 0);
    assert!(r.is_empty());
}

#[test]
fn seasons_split_into_whole_chunks() {
    let series: Vec<i64> = vec![1, 2, 3, 4, 5, 6, 7];
    // 4 minutes per period at 2 minutes per step: chunks of 2 samples; the
    // trailing seventh sample is dropped.
    let r = split_series_into_seasons(&series, 4, 2);
    assert_eq!(r.len(), 3);
    assert_eq!(r[0], vec![1, 2]);
    assert_eq!(r[1], vec![3, 4]);
    assert_eq!(r[2], vec![5, 6]);
}

#[test]
fn seasons_with_zero_step_are_empty() {
    let series: Vec<i64> = vec![1, 2, 3, 4];
    let r = split_series_into_seasons(&series, 4, 0);
    assert!(r.is_empty());
}

#[test]
fn recurring_events_scale_periods_by_sample_spacing() {
    // Two-minute spacing read off the first two millisecond timestamps.
    let timestamps: Vec<i64> = vec![0, 120000, 240000];
    let periods: Vec<usize> = vec![3, 5];
    let r = recurring_events_in_series("ACME", &timestamps, &periods);
    assert_eq!(r.len(), 2);
    assert_eq!(r[0].symbol, "ACME");
    assert_eq!(r[0].minutes_period, 6);
    assert_eq!(r[0].time_scale, 2);
    assert_eq!(r[1].minutes_period, 10);
}

#[test]
fn recurring_events_need_two_timestamps() {
    let timestamps: Vec<i64> = vec![0];
    let periods: Vec<usize> = vec![3];
    let r = recurring_events_in_series("ACME", &timestamps, &periods);
    assert!(r.is_empty());
}

#[test]
fn vecs_become_slices_over_the_same_elements() {
    let vecs: Vec<Vec<i64>> = vec![vec![1, 2], vec![], vec![3]];
    let slices = vecs_to_slices(&vecs);
    assert_eq!(slices.len(), 3);
    assert_eq!(slices[0], &[1, 2][..]);
    assert_eq!(slices[1], &[][..]);
    assert_eq!(slices[2], &[3][..]);
}

#[test]
fn trend_respects_the_threshold_scale() {
    // A 0.1 percent five-bar rise with accelerating slopes: below a
    // 50-basis-point (0.5 percent) threshold the trend detector stays
    // silent; a 5-basis-point threshold lets it fire with the exact
    // percentage.
    let series: Vec<i64> = vec![
        999_900, 999_910, 999_920, 999_930, 999_940, 999_950, 999_960, 999_970, 999_980, 999_990,
        1_000_000, 1_000_100, 1_000_250, 1_000_450, 1_000_700, 1_001_000,
    ];
    let silent = increasing_slope(&series, 50, 50);
    assert_eq!(silent.num, 0);
    let fired = increasing_slope(&series, 5, 5);
    assert_eq!(fired.num, 100 * 1000);
    assert_eq!(fired.den, 1_000_000);
    assert!((ratio_f64(fired) - 0.1).abs() < 1e-9);
}

#[test]
fn trend_and_jump_thresholds_share_one_scale() {
    // A single +0.4 percent step: above a 30-basis-point threshold, below a
    // 50-basis-point one — for the jump detector and for the percentage the
    // trend detector compares.
    let timestamps: Vec<i64> = vec![1, 2];
    let series: Vec<i64> = vec![1_000_000, 1_004_000];
    assert_eq!(jumps_in_series("ACME", &timestamps, &series, 30, 30).len(), 1);
    assert!(jumps_in_series("ACME", &timestamps, &series, 50, 50).is_empty());
}
