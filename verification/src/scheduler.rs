//! The scheduling state machine, and the analysis passes it drives.
//!
//! A repeating timer fires once per minute. A tick at the configured daily
//! hour and minute enters the daily batch; any other tick on a weekday
//! within the trading-session window enters the minute-level update; any
//! other tick leaves the scheduler idle. Once shutdown is requested no new
//! tick leaves the idle state, and since ingestion is idempotent an
//! abandoned in-flight tick cannot corrupt stored state.

use vstd::prelude::*;

use crate::detectors::{
    event_matches, increasing_slope, jump_points, jumps_in_series, millis_to_minutes,
    recurring_events_in_series, recurring_points, trend_signal,
};
use crate::directory::MetaData;
use crate::events::EventStore;
use crate::store::{range_rows, table_rows, SeriesStore, TimeSeriesData};
use crate::Ratio;

verus! {

/// What one timer tick does.
#[derive(Clone, Copy, Debug, PartialEq, Eq, Structural)]
pub enum TickKind {
    /// Refresh daily history and run the full detector suite.
    DailyBatch,
    /// Fetch the latest intraday bars and run the lightweight detectors.
    MinuteUpdate,
    /// Do nothing until the next tick.
    Idle,
}

/// A local wall-clock reading: weekday 0 (Monday) to 6, hour 0 to 23,
/// minute 0 to 59.
#[derive(Clone, Copy, Debug, PartialEq, Eq, Structural)]
pub struct LocalClock {
    /// Days from Monday, 0 to 6.
    pub weekday: u8,
    /// Hour of the day, 0 to 23.
    pub hour: u8,
    /// Minute of the hour, 0 to 59.
    pub minute: u8,
}

/// The clock reading is in range.
pub open spec fn clock_wf(c: LocalClock) -> bool {
    c.weekday < 7 && c.hour < 24 && c.minute < 60
}

/// When the scheduler acts: the daily-batch trigger time and the
/// trading-session window on weekdays.
#[derive(Clone, Copy, Debug, PartialEq, Eq, Structural)]
pub struct SchedulerConfig {
    /// Hour of the daily-batch trigger.
    pub daily_hour: u8,
    /// Minute of the daily-batch trigger.
    pub daily_minute: u8,
    /// First hour of the trading-session window.
    pub session_start_hour: u8,
    /// First hour past the trading-session window.
    pub session_end_hour: u8,
}

impl Default for SchedulerConfig {
    /// The daily batch at 23:00, the trading session from 07:00 until 22:00.
    fn default() -> (r: SchedulerConfig)
        ensures
            r == (SchedulerConfig {
                daily_hour: 23u8,
                daily_minute: 0u8,
                session_start_hour: 7u8,
                session_end_hour: 22u8,
            }),
    {
        SchedulerConfig { daily_hour: 23, daily_minute: 0, session_start_hour: 7, session_end_hour: 22 }
    }
}

/// What a tick at the given local time does: the daily batch exactly at the
/// configured trigger time; else the minute-level update on a weekday
/// within the trading-session window; else nothing.
pub open spec fn tick_kind_spec(cfg: SchedulerConfig, c: LocalClock) -> TickKind {
    if c.hour == cfg.daily_hour && c.minute == cfg.daily_minute {
        TickKind::DailyBatch
    } else if c.weekday < 5 && cfg.session_start_hour <= c.hour && c.hour < cfg.session_end_hour {
        TickKind::MinuteUpdate
    } else {
        TickKind::Idle
    }
}

/// Decide what a tick at the given local time does.
pub fn decide_tick(cfg: &SchedulerConfig, clock: &LocalClock) -> (r: TickKind)
    ensures
        r == tick_kind_spec(*cfg, *clock),
{
    if clock.hour == cfg.daily_hour && clock.minute == cfg.daily_minute {
        TickKind::DailyBatch
    } else if clock.weekday < 5 && cfg.session_start_hour <= clock.hour && clock.hour
        < cfg.session_end_hour {
        TickKind::MinuteUpdate
    } else {
        TickKind::Idle
    }
}

/// Relies on chrono's Local::now with Datelike::weekday and
/// Timelike::hour / minute: num_days_from_monday is 0 to 6, hour 0 to 23,
/// minute 0 to 59.
#[verifier::external_body]
fn local_clock() -> (c: LocalClock)
    ensures
        clock_wf(c),
{
    let now = chrono::Local::now();
    LocalClock {
        weekday: chrono::Datelike::weekday(&now).num_days_from_monday() as u8,
        hour: chrono::Timelike::hour(&now) as u8,
        minute: chrono::Timelike::minute(&now) as u8,
    }
}

/// The recurring-tick scheduler. It never terminates on its own: it only
/// stops issuing new work once shutdown is requested.
pub struct Scheduler {
    /// The timing configuration.
    pub config: SchedulerConfig,
    /// Set once shutdown is requested; never cleared.
    pub shutdown: bool,
}

impl Scheduler {
    /// Shutdown has been requested: no new tick leaves the idle state.
    pub open spec fn shutdown_requested(self) -> bool {
        self.shutdown
    }

    /// A scheduler with the given configuration, not yet shut down.
    pub fn new(config: SchedulerConfig) -> (r: Scheduler)
        ensures
            r.config == config,
            !r.shutdown_requested(),
    {
        Scheduler { config, shutdown: false }
    }

    /// Request shutdown: every later tick stays idle.
    pub fn request_shutdown(&mut self)
        ensures
            final(self).shutdown_requested(),
            final(self).config == old(self).config,
    {
        self.shutdown = true;
    }

    /// What the tick at the given local time does, idle once shutdown was
    /// requested.
    pub fn tick(&self, clock: &LocalClock) -> (r: TickKind)
        ensures
            self.shutdown_requested() ==> r == TickKind::Idle,
            !self.shutdown_requested() ==> r == tick_kind_spec(self.config, *clock),
    {
        if self.shutdown {
            TickKind::Idle
        } else {
            decide_tick(&self.config, clock)
        }
    }

    /// What the tick now does, read off the machine's local clock: idle
    /// once shutdown was requested, else the decision for some in-range
    /// clock reading.
    pub fn current_tick(&self) -> (r: TickKind)
        ensures
            self.shutdown_requested() ==> r == TickKind::Idle,
            !self.shutdown_requested() ==> exists|c: LocalClock|
                clock_wf(c) && r == #[trigger] tick_kind_spec(self.config, c),
    {
        let clock = local_clock();
        let r = self.tick(&clock);
        proof {
            if !self.shutdown_requested() {
                assert(clock_wf(clock) && r == tick_kind_spec(self.config, clock));
            }
        }
        r
    }
}

/// A qualifying trend event, surfaced to the notification collaborator.
#[derive(Debug)]
pub struct TrendAlert {
    /// The symbol whose series trends.
    pub symbol: String,
    /// The signed percentage change from 5 bars ago to now.
    pub percent: Ratio,
    /// Whether the series rises.
    pub rising: bool,
}

/// The minute-level analysis pass over one symbol's fresh series: detect
/// jumps and drops and persist them as jump events, then check for an
/// accelerating trend and surface it as an alert. Timestamps and prices are
/// parallel arrays; on a length mismatch no event is persisted.
pub fn run_analysis_on_updated_series(
    events: &mut EventStore,
    symbol: &str,
    timestamps: &Vec<i64>,
    closes: &Vec<i64>,
    threshold_up: i64,
    threshold_down: i64,
) -> (alert: Option<TrendAlert>)
    ensures
        final(events).drops() == old(events).drops(),
        final(events).recurrings() == old(events).recurrings(),
        timestamps@.len() != closes@.len() ==> final(events).jumps() == old(events).jumps(),
        timestamps@.len() == closes@.len() ==> ({
            let pts = jump_points(
                timestamps@,
                closes@,
                threshold_up as int,
                threshold_down as int,
            );
            &&& final(events).jumps().len() == old(events).jumps().len() + pts.len()
            &&& forall|j: int|
                0 <= j < old(events).jumps().len() ==> final(events).jumps()[j] == old(
                    events,
                ).jumps()[j]
            &&& forall|j: int|
                0 <= j < pts.len() ==> event_matches(
                    #[trigger] final(events).jumps()[old(events).jumps().len() + j],
                    pts[j],
                    symbol@,
                )
        }),
        ({
            let t = trend_signal(closes@, threshold_up as int, threshold_down as int);
            &&& t.is_zero() ==> alert is None
            &&& !t.is_zero() ==> (alert matches Some(a) && a.symbol@ == symbol@ && a.percent
                == t && a.rising == (t.num > 0))
        }),
{
    let jumps = jumps_in_series(symbol, timestamps, closes, threshold_up, threshold_down);
    events.insert_jump_events(&jumps);
    proof {
        if timestamps@.len() != closes@.len() {
            assert(events.jumps() =~= old(events).jumps());
        }
    }
    let t = increasing_slope(closes, threshold_up, threshold_down);
    if t.num != 0 {
        Some(TrendAlert { symbol: String::from_str(symbol), percent: t, rising: t.num > 0 })
    } else {
        None
    }
}

/// The rows of a symbol's series that lie in the metadata's query window.
pub open spec fn windowed_rows(store: SeriesStore, m: MetaData) -> Seq<TimeSeriesData> {
    let rows = table_rows(store.live_tables(), m.symbol@);
    range_rows(rows, m.start_date as int, m.end_date as int, rows.len() as int)
}

/// The timestamps of the read rows, in storage order.
pub open spec fn data_timestamps(rows: Seq<TimeSeriesData>) -> Seq<i64> {
    Seq::new(rows.len(), |i: int| rows[i].datetime)
}

/// The close prices of the read rows, in storage order.
pub open spec fn data_closes(rows: Seq<TimeSeriesData>) -> Seq<i64> {
    Seq::new(rows.len(), |i: int| rows[i].close)
}

/// The minute-update path for one symbol, reading its fresh series — the
/// rows within the metadata's query window — from the store: detect jumps
/// and drops over the close prices, persist them as jump events, and
/// surface a qualifying trend alert.
pub fn run_minute_pipeline(
    store: &SeriesStore,
    events: &mut EventStore,
    metadata: &MetaData,
    threshold_up: i64,
    threshold_down: i64,
) -> (alert: Option<TrendAlert>)
    ensures
        final(events).drops() == old(events).drops(),
        final(events).recurrings() == old(events).recurrings(),
        ({
            let win = windowed_rows(*store, *metadata);
            let pts = jump_points(
                data_timestamps(win),
                data_closes(win),
                threshold_up as int,
                threshold_down as int,
            );
            &&& final(events).jumps().len() == old(events).jumps().len() + pts.len()
            &&& forall|j: int|
                0 <= j < old(events).jumps().len() ==> final(events).jumps()[j] == old(
                    events,
                ).jumps()[j]
            &&& forall|j: int|
                0 <= j < pts.len() ==> event_matches(
                    #[trigger] final(events).jumps()[old(events).jumps().len() + j],
                    pts[j],
                    metadata.symbol@,
                )
        }),
        ({
            let win = windowed_rows(*store, *metadata);
            let t = trend_signal(data_closes(win), threshold_up as int, threshold_down as int);
            &&& t.is_zero() ==> alert is None
            &&& !t.is_zero() ==> (alert matches Some(a) && a.symbol@ == metadata.symbol@
                && a.percent == t && a.rising == (t.num > 0))
        }),
{
    let series = store.live_data_range(metadata);
    let ghost win = windowed_rows(*store, *metadata);
    let n = series.len();
    let mut timestamps: Vec<i64> = Vec::new();
    let mut closes: Vec<i64> = Vec::new();
    let mut i: usize = 0;
    while i < n
        invariant
            i <= n,
            n == series@.len(),
            series@ == win,
            timestamps@.len() == i,
            closes@.len() == i,
            forall|j: int| 0 <= j < i ==> #[trigger] timestamps@[j] == win[j].datetime,
            forall|j: int| 0 <= j < i ==> #[trigger] closes@[j] == win[j].close,
        decreases n - i,
    {
        timestamps.push(series[i].datetime);
        closes.push(series[i].close);
        i = i + 1;
    }
    proof {
        assert(timestamps@ =~= data_timestamps(win));
        assert(closes@ =~= data_closes(win));
    }
    run_analysis_on_updated_series(
        events,
        metadata.symbol.as_str(),
        &timestamps,
        &closes,
        threshold_up,
        threshold_down,
    )
}

/// The daily-batch analysis pass over one symbol's historical series:
/// detect jumps and drops and persist them as jump events, then turn the
/// candidate periods of a seasonality search over the same series into
/// recurring events and persist those. Timestamps are epoch milliseconds,
/// as the analysis frame carries them.
pub fn run_analysis_on_historical_series(
    events: &mut EventStore,
    symbol: &str,
    timestamps_millis: &Vec<i64>,
    closes: &Vec<i64>,
    periods: &Vec<usize>,
    threshold_up: i64,
    threshold_down: i64,
)
    ensures
        final(events).drops() == old(events).drops(),
        timestamps_millis@.len() != closes@.len() ==> final(events).jumps() == old(events).jumps(),
        timestamps_millis@.len() == closes@.len() ==> ({
            let pts = jump_points(
                timestamps_millis@,
                closes@,
                threshold_up as int,
                threshold_down as int,
            );
            &&& final(events).jumps().len() == old(events).jumps().len() + pts.len()
            &&& forall|j: int|
                0 <= j < old(events).jumps().len() ==> final(events).jumps()[j] == old(
                    events,
                ).jumps()[j]
            &&& forall|j: int|
                0 <= j < pts.len() ==> event_matches(
                    #[trigger] final(events).jumps()[old(events).jumps().len() + j],
                    pts[j],
                    symbol@,
                )
        }),
        timestamps_millis@.len() < 2 ==> final(events).recurrings() == old(events).recurrings(),
        timestamps_millis@.len() >= 2 ==> ({
            let td = millis_to_minutes(timestamps_millis@[1] - timestamps_millis@[0]);
            let pts = recurring_points(td, periods@, periods@.len() as int);
            let base = old(events).recurrings().len() as int;
            &&& final(events).recurrings().len() == base + pts.len()
            &&& forall|j: int|
                0 <= j < base ==> final(events).recurrings()[j] == old(events).recurrings()[j]
            &&& forall|j: int|
                0 <= j < pts.len() ==> ((#[trigger] final(events).recurrings()[base + j]).symbol@
                    == symbol@ && final(events).recurrings()[base + j].minutes_period == pts[j]
                    && final(events).recurrings()[base + j].time_scale == td)
        }),
{
    let jumps = jumps_in_series(
        symbol,
        timestamps_millis,
        closes,
        threshold_up,
        threshold_down,
    );
    events.insert_jump_events(&jumps);
    proof {
        if timestamps_millis@.len() != closes@.len() {
            assert(events.jumps() =~= old(events).jumps());
        }
    }
    let recurring = recurring_events_in_series(symbol, timestamps_millis, periods);
    events.insert_recurring_events(&recurring);
    proof {
        if timestamps_millis@.len() < 2 {
            assert(events.recurrings() =~= old(events).recurrings());
        }
    }
}

/// Whether the daily-batch path must refresh a symbol's history: always
/// when nothing is stored yet, else only once the newest stored daily row
/// is at least one whole day old (or the clock stepped a day backward).
pub fn needs_daily_refresh(last_timestamp: Option<i64>, now: i64) -> (r: bool)
    ensures
        r == match last_timestamp {
            Option::None => true,
            Option::Some(t) => now - t >= 86400 || now - t <= -86400,
        },
{
    match last_timestamp {
        None => true,
        Some(t) => {
            let diff: i128 = now as i128 - t as i128;
            diff >= 86400 || diff <= -86400
        },
    }
}

} // verus!
