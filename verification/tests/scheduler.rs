use stockwatch::directory::MetaData;
use stockwatch::events::EventStore;
use stockwatch::gateway::{
    classify_fetch_error, select_provider, FetchError, PipelineError, Provider, ProviderGateway,
};
use stockwatch::scheduler::{
    decide_tick, run_analysis_on_historical_series, run_analysis_on_updated_series,
    run_minute_pipeline, LocalClock, Scheduler, SchedulerConfig, TickKind,
};
use stockwatch::events::JumpEventData;
use stockwatch::store::{EnhancedBar, SeriesStore};
use stockwatch::Ratio;

fn clock(weekday: u8, hour: u8, minute: u8) -> LocalClock {
    LocalClock { weekday, hour, minute }
}

#[test]
fn daily_batch_at_the_trigger_time() {
    // 23:00 on a weekday enters the daily batch.
    let cfg = SchedulerConfig::default();
    assert_eq!(decide_tick(&cfg, &clock(2, 23, 0)), TickKind::DailyBatch);
}

#[test]
fn minute_update_within_the_session() {
    // 10:00 on a weekday within the trading window enters the minute update.
    let cfg = SchedulerConfig::default();
    assert_eq!(decide_tick(&cfg, &clock(2, 10, 0)), TickKind::MinuteUpdate);
}

#[test]
fn weekend_stays_idle() {
    // 10:00 on a weekend stays idle.
    let cfg = SchedulerConfig::default();
    assert_eq!(decide_tick(&cfg, &clock(5, 10, 0)), TickKind::Idle);
    assert_eq!(decide_tick(&cfg, &clock(6, 10, 0)), TickKind::Idle);
}

#[test]
fn off_session_weekday_stays_idle() {
    let cfg = SchedulerConfig::default();
    assert_eq!(decide_tick(&cfg, &clock(1, 5, 30)), TickKind::Idle);
    assert_eq!(decide_tick(&cfg, &clock(1, 22, 30)), TickKind::Idle);
}

#[test]
fn shutdown_stops_new_ticks() {
    let mut s = Scheduler::new(SchedulerConfig::default());
    assert_eq!(s.tick(&clock(2, 10, 0)), TickKind::MinuteUpdate);
    s.request_shutdown();
    assert_eq!(s.tick(&clock(2, 10, 0)), TickKind::Idle);
    assert_eq!(s.tick(&clock(2, 23, 0)), TickKind::Idle);
}

#[test]
fn current_tick_returns_a_decision() {
    let s = Scheduler::new(SchedulerConfig::default());
    let k = s.current_tick();
    assert!(matches!(k, TickKind::DailyBatch | TickKind::MinuteUpdate | TickKind::Idle));
}

#[test]
fn provider_selection_follows_priority() {
    assert_eq!(select_provider(true, true, true), Some(Provider::TwelveData));
    assert_eq!(select_provider(false, true, true), Some(Provider::AlphaVantage));
    assert_eq!(select_provider(false, false, true), Some(Provider::PolygonIo));
    assert_eq!(select_provider(false, false, false), None);
}

#[test]
fn gateway_without_credentials_fails_every_fetch() {
    let gw = ProviderGateway::new(false, false, false);
    assert_eq!(gw.active_provider(), Err(FetchError::NoProviderConfigured));
    let gw = ProviderGateway::new(false, true, false);
    assert_eq!(gw.active_provider(), Ok(Provider::AlphaVantage));
}

#[test]
fn fetch_errors_classify_into_pipeline_errors() {
    assert_eq!(
        classify_fetch_error(&FetchError::NoProviderConfigured),
        PipelineError::ProviderUnconfigured
    );
    assert_eq!(classify_fetch_error(&FetchError::RateLimited), PipelineError::FetchFailed);
    assert_eq!(classify_fetch_error(&FetchError::Failed), PipelineError::FetchFailed);
}

#[test]
fn updated_series_analysis_persists_jumps_and_alerts() {
    let mut events = EventStore::new();
    let timestamps: Vec<i64> = vec![1, 2, 3];
    let closes: Vec<i64> = vec![100, 150, 100];
    let alert = run_analysis_on_updated_series(&mut events, "ACME", &timestamps, &closes, 1000, 1000);
    // Too short for a trend, but both moves exceed the thresholds.
    assert!(alert.is_none());
    assert_eq!(events.jump_events_count("ACME"), 2);
    let stored = events.jump_events("ACME");
    assert_eq!(stored[0].datetime, 2);
    assert_eq!(stored[1].datetime, 3);
}

#[test]
fn updated_series_analysis_surfaces_a_rising_alert() {
    let mut events = EventStore::new();
    let closes: Vec<i64> = vec![0, 1, 2, 3, 4, 5, 6, 7, 8, 9, 10, 13, 16, 20, 25, 31];
    let timestamps: Vec<i64> = (0..closes.len() as i64).collect();
    let alert = run_analysis_on_updated_series(&mut events, "ACME", &timestamps, &closes, 1000, 1000);
    let a = alert.expect("an accelerating rise must alert");
    assert_eq!(a.symbol, "ACME");
    assert!(a.rising);
    assert_eq!(a.percent.num, 2100);
    assert_eq!(a.percent.den, 10);
}

#[test]
fn minute_pipeline_reads_the_store() {
    let mut store = SeriesStore::new();
    let mut m = MetaData::default();
    m.symbol = "ACME".to_string();
    m.end_date = i64::MAX;
    let bars = vec![
        EnhancedBar::from_ohlcv(0, 0, 0, 100, 1),
        EnhancedBar::from_ohlcv(0, 0, 0, 150, 1),
        EnhancedBar::from_ohlcv(0, 0, 0, 100, 1),
    ];
    store.insert_live_data(&m, &bars, 1_000_000);
    let mut events = EventStore::new();
    let alert = run_minute_pipeline(&store, &mut events, &m, 1000, 1000);
    assert!(alert.is_none());
    assert_eq!(events.jump_events_count("ACME"), 2);
    let stored = events.jump_events("ACME");
    assert_eq!(stored[0].datetime, 1_000_000 - 120);
    assert_eq!(stored[1].datetime, 1_000_000 - 60);
}

#[test]
fn historical_analysis_persists_recurring_events() {
    let mut events = EventStore::new();
    let timestamps_ms: Vec<i64> = vec![0, 60000, 120000, 180000];
    let closes: Vec<i64> = vec![100, 101, 100, 101];
    let periods: Vec<usize> = vec![2];
    run_analysis_on_historical_series(
        &mut events,
        "ACME",
        &timestamps_ms,
        &closes,
        &periods,
        1000,
        1000,
    );
    assert_eq!(events.jump_events_count("ACME"), 0);
    assert_eq!(events.recurring_events_count("ACME"), 1);
    let rec = events.recurring_events("ACME");
    assert_eq!(rec[0].minutes_period, 2);
    assert_eq!(rec[0].time_scale, 1);
}

#[test]
fn event_maintenance_deletes_and_reinserts() {
    let mut events = EventStore::new();
    let timestamps: Vec<i64> = vec![1, 2];
    let closes: Vec<i64> = vec![100, 150];
    run_analysis_on_updated_series(&mut events, "ACME", &timestamps, &closes, 1000, 1000);
    run_analysis_on_updated_series(&mut events, "BRGT", &timestamps, &closes, 1000, 1000);
    assert_eq!(events.jump_events_count("ACME"), 1);
    events.delete_jump_events("ACME");
    assert_eq!(events.jump_events_count("ACME"), 0);
    assert_eq!(events.jump_events_count("BRGT"), 1);
}

#[test]
fn minute_pipeline_honors_the_query_window() {
    // Only the window's rows feed the detector: a narrow window around the
    // drop hides the earlier jump.
    let mut store = SeriesStore::new();
    let mut m = MetaData::default();
    m.symbol = "ACME".to_string();
    m.end_date = i64::MAX;
    let bars = vec![
        EnhancedBar::from_ohlcv(0, 0, 0, 100, 1),
        EnhancedBar::from_ohlcv(0, 0, 0, 150, 1),
        EnhancedBar::from_ohlcv(0, 0, 0, 100, 1),
    ];
    store.insert_live_data(&m, &bars, 1_000_000);
    m.start_date = 1_000_000 - 120;
    let mut events = EventStore::new();
    run_minute_pipeline(&store, &mut events, &m, 1000, 1000);
    let stored = events.jump_events("ACME");
    assert_eq!(stored.len(), 1);
    assert_eq!(stored[0].datetime, 1_000_000 - 60);
}

#[test]
fn events_read_back_sorted_by_timestamp() {
    let mut events = EventStore::new();
    let late = JumpEventData { datetime: 5, symbol: "ACME".to_string(), percent: Ratio { num: 1, den: 1 } };
    let early = JumpEventData { datetime: 3, symbol: "ACME".to_string(), percent: Ratio { num: 2, den: 1 } };
    events.insert_jump_events(&vec![late, early]);
    let stored = events.jump_events("ACME");
    assert_eq!(stored.len(), 2);
    assert_eq!(stored[0].datetime, 3);
    assert_eq!(stored[1].datetime, 5);
    // The mirror suffix keeps insertion order.
    let since = events.jump_events_since(0);
    assert_eq!(since[0].datetime, 5);
    assert_eq!(since[1].datetime, 3);
    assert!(events.jump_events_since(2).is_empty());
}
