use stockwatch::directory::MetaData;
use stockwatch::scheduler::needs_daily_refresh;
use stockwatch::store::{DailyBar, EnhancedBar, SeriesStore, StoredBar, marketdata_to_timeseries};

fn meta(symbol: &str, start: i64, end: i64) -> MetaData {
    let mut m = MetaData::default();
    m.symbol = symbol.to_string();
    m.start_date = start;
    m.end_date = end;
    m
}

fn daily(date: i64, close: i64) -> DailyBar {
    DailyBar { date, open: close - 1, high: close + 1, low: close - 2, close, volume: 10 }
}

#[test]
fn ingestion_is_idempotent() {
    // Inserting one batch twice yields the same stored row count and values
    // as a single call.
    let mut store = SeriesStore::new();
    let m = meta("ACME", 0, i64::MAX);
    let bars = vec![daily(1, 100), daily(2, 110), daily(3, 90)];
    let first = store.insert_timeseries(&m, &bars);
    assert_eq!(first.len(), 3);
    let after_first = store.timeseries(&m);
    let second = store.insert_timeseries(&m, &bars);
    assert!(second.is_empty());
    let after_second = store.timeseries(&m);
    assert_eq!(after_first, after_second);
    assert_eq!(store.timeseries_count(&m), 3);
}

#[test]
fn overlapping_batches_are_deduplicated() {
    // B1 on dates {1,2,3}, B2 on {2,3,4}: four distinct rows, and the
    // overlapped rows keep the first batch's values.
    let mut store = SeriesStore::new();
    let m = meta("ACME", 0, i64::MAX);
    let b1 = vec![daily(1, 100), daily(2, 110), daily(3, 90)];
    let b2 = vec![daily(2, 999), daily(3, 888), daily(4, 120)];
    store.insert_timeseries(&m, &b1);
    let fresh = store.insert_timeseries(&m, &b2);
    assert_eq!(fresh.len(), 1);
    assert_eq!(store.timeseries_count(&m), 4);
    let rows = store.timeseries(&m);
    assert_eq!(rows.len(), 4);
    // Ascending by timestamp, and the date-2 row still closes at 110.
    for w in rows.windows(2) {
        assert!(w[0].datetime < w[1].datetime);
    }
    assert_eq!(rows[1].close, 110);
    assert_eq!(rows[2].close, 90);
    assert_eq!(rows[3].close, 120);
}

#[test]
fn daily_timestamps_pin_to_the_fixed_hour() {
    let mut store = SeriesStore::new();
    let m = meta("ACME", 0, i64::MAX);
    let fresh = store.insert_timeseries(&m, &vec![daily(3, 100)]);
    assert_eq!(fresh.len(), 1);
    assert_eq!(fresh[0].datetime, 3 * 86400 + 22 * 3600);
}

#[test]
fn timeseries_reads_only_the_query_window() {
    let mut store = SeriesStore::new();
    let wide = meta("ACME", 0, i64::MAX);
    store.insert_timeseries(&wide, &vec![daily(1, 100), daily(2, 110), daily(3, 90)]);
    let narrow = meta("ACME", 2 * 86400, 3 * 86400);
    let rows = store.timeseries(&narrow);
    assert_eq!(rows.len(), 1);
    assert_eq!(rows[0].close, 110);
}

#[test]
fn minute_bars_backfill_from_the_base_timestamp() {
    let mut store = SeriesStore::new();
    let m = meta("ACME", 0, i64::MAX);
    let bars = vec![
        EnhancedBar::from_ohlcv(1, 2, 0, 1, 5),
        EnhancedBar::from_ohlcv(2, 3, 1, 2, 6),
        EnhancedBar::from_ohlcv(3, 4, 2, 3, 7),
    ];
    let base = 1_000_000;
    let fresh = store.insert_live_data(&m, &bars, base);
    assert_eq!(fresh.len(), 3);
    assert_eq!(fresh[0].datetime, base - 180);
    assert_eq!(fresh[1].datetime, base - 120);
    assert_eq!(fresh[2].datetime, base - 60);
    assert_eq!(store.live_data_count(&m), 3);

    // The same batch against the same base changes nothing.
    let again = store.insert_live_data(&m, &bars, base);
    assert!(again.is_empty());
    assert_eq!(store.live_data_count(&m), 3);
}

#[test]
fn symbols_have_independent_series() {
    let mut store = SeriesStore::new();
    let ma = meta("ACME", 0, i64::MAX);
    let mb = meta("BRGT", 0, i64::MAX);
    store.insert_timeseries(&ma, &vec![daily(1, 100)]);
    store.insert_timeseries(&mb, &vec![daily(1, 200), daily(2, 210)]);
    assert_eq!(store.timeseries_count(&ma), 1);
    assert_eq!(store.timeseries_count(&mb), 2);
    assert_eq!(store.timeseries(&ma)[0].close, 100);
}

#[test]
fn clock_driven_ingestion_stores_the_batch() {
    let mut store = SeriesStore::new();
    let m = meta("ACME", 0, i64::MAX);
    let bars = vec![EnhancedBar::from_ohlcv(1, 2, 0, 1, 5), EnhancedBar::from_ohlcv(2, 3, 1, 2, 6)];
    let fresh = store.insert_live_data_now(&m, &bars);
    assert_eq!(fresh.len(), 2);
    assert_eq!(store.live_data_count(&m), 2);
    assert_eq!(fresh[1].datetime - fresh[0].datetime, 60);
}

#[test]
fn marketdata_conversion_matches_ingestion_timestamps() {
    let bars = vec![EnhancedBar::from_ohlcv(1, 2, 0, 1, 5), EnhancedBar::from_ohlcv(2, 3, 1, 2, 6)];
    let rows = marketdata_to_timeseries(&bars, 600);
    assert_eq!(rows.len(), 2);
    assert_eq!(rows[0].datetime, 480);
    assert_eq!(rows[1].datetime, 540);
    assert_eq!(rows[0].open, 1);
    assert_eq!(rows[1].close, 2);
}

#[test]
fn daily_refresh_is_skipped_within_a_day() {
    let mut store = SeriesStore::new();
    let m = meta("ACME", 0, i64::MAX);
    assert_eq!(store.last_daily_timestamp(&m), None);
    assert!(needs_daily_refresh(None, 1_000_000));
    store.insert_timeseries(&m, &vec![daily(1, 100), daily(2, 110)]);
    let last = store.last_daily_timestamp(&m);
    assert_eq!(last, Some(2 * 86400 + 22 * 3600));
    let last_ts = last.unwrap();
    assert!(!needs_daily_refresh(last, last_ts + 86399));
    assert!(needs_daily_refresh(last, last_ts + 86400));
    assert!(needs_daily_refresh(last, last_ts - 86400));
}

#[test]
fn reloaded_rows_deduplicate_against_fresh_ingestion() {
    // Rows a durable mirror hands back at startup keep their timestamps,
    // and re-ingesting the same day afterwards stores nothing new.
    let mut store = SeriesStore::new();
    let m = meta("ACME", 0, i64::MAX);
    let day2 = 2 * 86400 + 22 * 3600;
    let loaded = vec![StoredBar { timestamp: day2, bar: EnhancedBar::from_ohlcv(109, 111, 108, 110, 10) }];
    let fresh = store.insert_daily_rows(&m, &loaded);
    assert_eq!(fresh.len(), 1);
    let again = store.insert_timeseries(&m, &vec![daily(2, 999)]);
    assert!(again.is_empty());
    assert_eq!(store.timeseries(&m)[0].close, 110);
}
