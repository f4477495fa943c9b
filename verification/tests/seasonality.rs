//! The seasonality round trip: a synthetic sine-like series with a known
//! period, searched by the periodogram detector, must yield that period (or
//! a value within one sample), which the pipeline then turns into a
//! recurring event scaled by the sample spacing.

use augurs::seasons::{Detector, PeriodogramDetector};
use stockwatch::detectors::recurring_events_in_series;

#[test]
fn sine_period_round_trips_into_a_recurring_event() {
    let period: usize = 24;
    let n: usize = 24 * 20;
    let mut series: Vec<f64> = Vec::new();
    for i in 0..n {
        let phase = (i % period) as f64 / period as f64 * std::f64::consts::TAU;
        series.push(100.0 + 10.0 * phase.sin());
    }
    let detector = PeriodogramDetector::builder()
        .min_period(4)
        .max_period(100)
        .threshold(0.5)
        .build();
    let periods: Vec<usize> = detector.detect(&series).into_iter().map(|p| p as usize).collect();
    assert!(
        periods.iter().any(|&p| p + 1 >= period && p <= period + 1),
        "no detected period within one sample of {period}: {periods:?}"
    );

    // One-minute sample spacing: the recurring event scales the period into
    // minutes.
    let timestamps_ms: Vec<i64> = (0..n as i64).map(|i| i * 60000).collect();
    let events = recurring_events_in_series("ACME", &timestamps_ms, &periods);
    assert_eq!(events.len(), periods.len());
    assert!(events.iter().any(|e| {
        e.minutes_period as usize + 1 >= period && (e.minutes_period as usize) <= period + 1
    }));
    assert!(events.iter().all(|e| e.time_scale == 1));
}
