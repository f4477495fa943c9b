//! The durable series store: OHLCV bars per symbol, keyed by
//! (symbol, timestamp), append-only with idempotent de-duplication.
//!
//! Two tables mirror the two resolutions: a minute-level table whose rows
//! carry advisory indicator enrichments, and a daily table. A symbol's
//! series is modelled as a map from timestamp to bar; insertion is a no-op
//! for a (symbol, timestamp) pair that already exists, so re-ingesting
//! overlapping provider responses neither duplicates nor alters rows.

use vstd::prelude::*;

use crate::directory::MetaData;

verus! {

/// One OHLCV sample with its advisory indicator enrichments. All values are
/// fixed-point integers in the caller's scale; a provider that cannot
/// compute an indicator sets it to zero.
#[derive(Clone, Copy, Debug, PartialEq, Eq, Structural)]
pub struct EnhancedBar {
    /// Open price of the time frame.
    pub open: i64,
    /// Highest price of the time frame.
    pub high: i64,
    /// Lowest price of the time frame.
    pub low: i64,
    /// Close price of the time frame.
    pub close: i64,
    /// Trade volume of the time frame.
    pub volume: i64,
    /// Simple moving average.
    pub sma: i64,
    /// Exponential moving average.
    pub ema: i64,
    /// Relative strength index.
    pub rsi: i64,
    /// Stochastic oscillator.
    pub stochastic: i64,
    /// MACD value.
    pub macd_value: i64,
    /// MACD signal value.
    pub signal_value: i64,
    /// MACD histogram value.
    pub hist_value: i64,
}

impl EnhancedBar {
    /// A bar of the plain OHLCV values with zeroed indicators.
    pub fn from_ohlcv(open: i64, high: i64, low: i64, close: i64, volume: i64) -> (r: EnhancedBar)
        ensures
            r == (EnhancedBar {
                open,
                high,
                low,
                close,
                volume,
                sma: 0,
                ema: 0,
                rsi: 0,
                stochastic: 0,
                macd_value: 0,
                signal_value: 0,
                hist_value: 0,
            }),
    {
        EnhancedBar {
            open,
            high,
            low,
            close,
            volume,
            sma: 0,
            ema: 0,
            rsi: 0,
            stochastic: 0,
            macd_value: 0,
            signal_value: 0,
            hist_value: 0,
        }
    }
}

/// One stored row: a canonical timestamp (epoch seconds) and its bar.
#[derive(Clone, Copy, Debug, PartialEq, Eq, Structural)]
pub struct StoredBar {
    /// Epoch seconds; unique within a symbol's series.
    pub timestamp: i64,
    /// The bar.
    pub bar: EnhancedBar,
}

/// One OHLCV sample as readers receive it.
#[derive(Clone, Copy, Debug, PartialEq, Eq, Structural)]
pub struct TimeSeriesData {
    /// Epoch seconds.
    pub datetime: i64,
    /// Open price of the time frame.
    pub open: i64,
    /// Highest price of the time frame.
    pub high: i64,
    /// Lowest price of the time frame.
    pub low: i64,
    /// Close price of the time frame.
    pub close: i64,
    /// Trade volume of the time frame.
    pub volume: i64,
}

impl Default for TimeSeriesData {
    /// A sample with every field zero.
    fn default() -> (r: TimeSeriesData)
        ensures
            r == (TimeSeriesData { datetime: 0, open: 0, high: 0, low: 0, close: 0, volume: 0 }),
    {
        TimeSeriesData { datetime: 0, open: 0, high: 0, low: 0, close: 0, volume: 0 }
    }
}

/// One raw daily bar from a provider: a calendar date (days since the
/// epoch) and OHLCV values.
#[derive(Clone, Copy, Debug, PartialEq, Eq, Structural)]
pub struct DailyBar {
    /// Days since the epoch.
    pub date: i64,
    /// Open price of the day.
    pub open: i64,
    /// Highest price of the day.
    pub high: i64,
    /// Lowest price of the day.
    pub low: i64,
    /// Close price of the day.
    pub close: i64,
    /// Trade volume of the day.
    pub volume: i64,
}

/// The fixed time of day that a daily bar's timestamp is pinned to:
/// 22:00, normalizing across exchange closes.
pub const DAILY_PIN_SECONDS: i64 = 79200;

/// The OHLCV projection of a stored row, as readers receive it.
pub open spec fn row_data(b: StoredBar) -> TimeSeriesData {
    TimeSeriesData {
        datetime: b.timestamp,
        open: b.bar.open,
        high: b.bar.high,
        low: b.bar.low,
        close: b.bar.close,
        volume: b.bar.volume,
    }
}

/// A symbol's series as a map from timestamp to bar.
pub open spec fn rows_to_map(rows: Seq<StoredBar>) -> Map<int, EnhancedBar>
    decreases rows.len(),
{
    if rows.len() == 0 {
        Map::empty()
    } else {
        rows_to_map(rows.drop_last()).insert(rows.last().timestamp as int, rows.last().bar)
    }
}

/// Some row carries timestamp `t`.
pub open spec fn ts_present(rows: Seq<StoredBar>, t: int) -> bool {
    exists|i: int| 0 <= i < rows.len() && (#[trigger] rows[i]).timestamp == t
}

/// The map's domain is exactly the timestamps of the rows, and it is finite.
pub proof fn lemma_rows_to_map_dom(rows: Seq<StoredBar>)
    ensures
        rows_to_map(rows).dom().finite(),
        forall|t: int| rows_to_map(rows).dom().contains(t) <==> ts_present(rows, t),
    decreases rows.len(),
{
    if rows.len() == 0 {
        assert(rows_to_map(rows).dom() =~= Set::empty());
    } else {
        lemma_rows_to_map_dom(rows.drop_last());
        assert forall|t: int| rows_to_map(rows).dom().contains(t) implies ts_present(
            rows,
            t,
        ) by {
            if t == rows.last().timestamp {
                assert(rows[rows.len() - 1].timestamp == t);
            } else {
                assert(rows_to_map(rows.drop_last()).dom().contains(t));
                assert(ts_present(rows.drop_last(), t));
                let i = choose|i: int|
                    0 <= i < rows.drop_last().len() && (#[trigger] rows.drop_last()[i]).timestamp
                        == t;
                assert(rows.drop_last()[i] == rows[i]);
                assert(rows[i].timestamp == t);
            }
        }
        assert forall|t: int| ts_present(rows, t) implies rows_to_map(rows).dom().contains(
            t,
        ) by {
            let i = choose|i: int| 0 <= i < rows.len() && (#[trigger] rows[i]).timestamp == t;
            if i < rows.len() - 1 {
                assert(rows.drop_last()[i].timestamp == t);
                assert(ts_present(rows.drop_last(), t));
                assert(rows_to_map(rows.drop_last()).dom().contains(t));
            }
        }
    }
}

/// The timestamps of the rows are pairwise distinct.
pub open spec fn distinct_timestamps(rows: Seq<StoredBar>) -> bool {
    forall|i: int, j: int|
        0 <= i < j < rows.len() ==> (#[trigger] rows[i]).timestamp != (
        #[trigger] rows[j]).timestamp
}

/// With distinct timestamps, the map holds exactly one entry per row.
pub proof fn lemma_rows_to_map_len(rows: Seq<StoredBar>)
    requires
        distinct_timestamps(rows),
    ensures
        rows_to_map(rows).dom().len() == rows.len(),
    decreases rows.len(),
{
    lemma_rows_to_map_dom(rows);
    if rows.len() > 0 {
        lemma_rows_to_map_dom(rows.drop_last());
        lemma_rows_to_map_len(rows.drop_last());
        assert(!ts_present(rows.drop_last(), rows.last().timestamp as int));
        assert(rows_to_map(rows).dom() =~= rows_to_map(rows.drop_last()).dom().insert(
            rows.last().timestamp as int,
        ));
    }
}

/// With distinct timestamps, each row's bar is the map's value at its
/// timestamp.
pub proof fn lemma_rows_to_map_at(rows: Seq<StoredBar>, i: int)
    requires
        distinct_timestamps(rows),
        0 <= i < rows.len(),
    ensures
        rows_to_map(rows).dom().contains(rows[i].timestamp as int),
        rows_to_map(rows)[rows[i].timestamp as int] == rows[i].bar,
    decreases rows.len(),
{
    lemma_rows_to_map_dom(rows);
    if i < rows.len() - 1 {
        lemma_rows_to_map_at(rows.drop_last(), i);
        assert(rows.drop_last()[i] == rows[i]);
    }
}

/// Inserting a row with a fresh timestamp anywhere in the sequence inserts
/// exactly its entry into the map.
pub proof fn lemma_rows_to_map_insert(rows: Seq<StoredBar>, i: int, row: StoredBar)
    requires
        0 <= i <= rows.len(),
        !ts_present(rows, row.timestamp as int),
    ensures
        rows_to_map(rows.insert(i, row)) == rows_to_map(rows).insert(
            row.timestamp as int,
            row.bar,
        ),
    decreases rows.len(),
{
    let s = rows.insert(i, row);
    if i == rows.len() {
        assert(s.drop_last() =~= rows);
        assert(s.last() == row);
    } else {
        assert(s.last() == rows.last());
        assert(s.drop_last() =~= rows.drop_last().insert(i, row));
        assert(!ts_present(rows.drop_last(), row.timestamp as int)) by {
            if ts_present(rows.drop_last(), row.timestamp as int) {
                let j = choose|j: int|
                    0 <= j < rows.drop_last().len() && (#[trigger] rows.drop_last()[j]).timestamp
                        == row.timestamp;
                assert(rows[j].timestamp == row.timestamp);
            }
        }
        lemma_rows_to_map_insert(rows.drop_last(), i, row);
        assert(rows[rows.len() - 1].timestamp == rows.last().timestamp);
        assert(rows.last().timestamp != row.timestamp);
        assert(rows_to_map(rows.drop_last()).insert(row.timestamp as int, row.bar).insert(
            rows.last().timestamp as int,
            rows.last().bar,
        ) =~= rows_to_map(rows.drop_last()).insert(
            rows.last().timestamp as int,
            rows.last().bar,
        ).insert(row.timestamp as int, row.bar));
    }
}

/// The map of a symbol's series after inserting the first `i` rows of a
/// batch in order, skipping each timestamp already present.
pub open spec fn map_after_inserts_upto(
    m: Map<int, EnhancedBar>,
    batch: Seq<StoredBar>,
    i: int,
) -> Map<int, EnhancedBar>
    decreases i,
{
    if i <= 0 {
        m
    } else {
        let m1 = map_after_inserts_upto(m, batch, i - 1);
        let b = batch[i - 1];
        if m1.dom().contains(b.timestamp as int) {
            m1
        } else {
            m1.insert(b.timestamp as int, b.bar)
        }
    }
}

/// The map of a symbol's series after inserting a whole batch in order.
pub open spec fn map_after_inserts(
    m: Map<int, EnhancedBar>,
    batch: Seq<StoredBar>,
) -> Map<int, EnhancedBar> {
    map_after_inserts_upto(m, batch, batch.len() as int)
}

/// The rows among the first `i` of the batch that insertion actually
/// persists — those whose timestamp was not yet present — in batch order,
/// as readers receive them.
pub open spec fn inserted_rows_upto(
    m: Map<int, EnhancedBar>,
    batch: Seq<StoredBar>,
    i: int,
) -> Seq<TimeSeriesData>
    decreases i,
{
    if i <= 0 {
        Seq::empty()
    } else {
        let prefix = inserted_rows_upto(m, batch, i - 1);
        let b = batch[i - 1];
        if map_after_inserts_upto(m, batch, i - 1).dom().contains(b.timestamp as int) {
            prefix
        } else {
            prefix.push(row_data(b))
        }
    }
}

/// The newly persisted subset of a whole batch.
pub open spec fn inserted_rows(
    m: Map<int, EnhancedBar>,
    batch: Seq<StoredBar>,
) -> Seq<TimeSeriesData> {
    inserted_rows_upto(m, batch, batch.len() as int)
}

/// The timestamps of the first `i` rows of a batch, as a set.
pub open spec fn batch_keys(batch: Seq<StoredBar>, i: int) -> Set<int>
    decreases i,
{
    if i <= 0 {
        Set::empty()
    } else {
        batch_keys(batch, i - 1).insert(batch[i - 1].timestamp as int)
    }
}

/// Insertion never alters an existing row: every key of the starting map
/// keeps its value, and every key of the result was a starting key or a
/// batch timestamp.
pub proof fn lemma_inserts_preserve_existing(
    m: Map<int, EnhancedBar>,
    batch: Seq<StoredBar>,
    i: int,
)
    ensures
        forall|k: int|
            #[trigger] m.dom().contains(k) ==> map_after_inserts_upto(m, batch, i).dom().contains(
                k,
            ) && map_after_inserts_upto(m, batch, i)[k] == m[k],
    decreases i,
{
    if i > 0 {
        lemma_inserts_preserve_existing(m, batch, i - 1);
        assert forall|k: int| #[trigger] m.dom().contains(k) implies map_after_inserts_upto(
            m,
            batch,
            i,
        ).dom().contains(k) && map_after_inserts_upto(m, batch, i)[k] == m[k] by {
            assert(map_after_inserts_upto(m, batch, i - 1)[k] == m[k]);
            assert(map_after_inserts_upto(m, batch, i - 1).dom().contains(k));
        }
    }
}

/// Insertion adds exactly the batch timestamps to the domain.
pub proof fn lemma_inserts_dom(m: Map<int, EnhancedBar>, batch: Seq<StoredBar>, i: int)
    requires
        0 <= i,
    ensures
        map_after_inserts_upto(m, batch, i).dom() =~= m.dom().union(batch_keys(batch, i)),
    decreases i,
{
    if i > 0 {
        lemma_inserts_dom(m, batch, i - 1);
    }
}

/// A batch whose timestamps are all present already changes nothing.
pub proof fn lemma_inserts_noop(m: Map<int, EnhancedBar>, batch: Seq<StoredBar>, i: int)
    requires
        0 <= i <= batch.len(),
        forall|j: int| 0 <= j < i ==> m.dom().contains((#[trigger] batch[j]).timestamp as int),
    ensures
        map_after_inserts_upto(m, batch, i) == m,
    decreases i,
{
    if i > 0 {
        lemma_inserts_noop(m, batch, i - 1);
    }
}

/// Idempotent ingestion: inserting a batch a second time leaves the series
/// exactly as after the first insertion, row for row.
pub proof fn lemma_ingestion_idempotent(m: Map<int, EnhancedBar>, batch: Seq<StoredBar>)
    ensures
        map_after_inserts(map_after_inserts(m, batch), batch) == map_after_inserts(m, batch),
{
    let m1 = map_after_inserts(m, batch);
    lemma_inserts_dom(m, batch, batch.len() as int);
    assert forall|j: int| 0 <= j < batch.len() implies m1.dom().contains(
        (#[trigger] batch[j]).timestamp as int,
    ) by {
        lemma_batch_keys_contain(batch, batch.len() as int, j);
    }
    lemma_inserts_noop(m1, batch, batch.len() as int);
}

/// Every timestamp among the first `i` of the batch is a batch key.
pub proof fn lemma_batch_keys_contain(batch: Seq<StoredBar>, i: int, j: int)
    requires
        0 <= j < i <= batch.len(),
    ensures
        batch_keys(batch, i).contains(batch[j].timestamp as int),
    decreases i,
{
    if j < i - 1 {
        lemma_batch_keys_contain(batch, i - 1, j);
    }
}

/// De-duplication under overlap: after inserting two batches in turn, the
/// stored timestamps are exactly the starting ones united with both
/// batches' timestamps — overlapping rows are stored once — and no
/// pre-existing row has changed.
pub proof fn lemma_dedup_under_overlap(
    m: Map<int, EnhancedBar>,
    b1: Seq<StoredBar>,
    b2: Seq<StoredBar>,
)
    ensures
        map_after_inserts(map_after_inserts(m, b1), b2).dom() =~= m.dom().union(
            batch_keys(b1, b1.len() as int),
        ).union(batch_keys(b2, b2.len() as int)),
        forall|k: int|
            #[trigger] m.dom().contains(k) ==> map_after_inserts(map_after_inserts(m, b1), b2)[k]
                == m[k],
{
    let m1 = map_after_inserts(m, b1);
    lemma_inserts_dom(m, b1, b1.len() as int);
    lemma_inserts_dom(m1, b2, b2.len() as int);
    lemma_inserts_preserve_existing(m, b1, b1.len() as int);
    lemma_inserts_preserve_existing(m1, b2, b2.len() as int);
}

/// One symbol's stored series: rows in strictly ascending timestamp order.
pub struct SymbolSeries {
    /// The symbol whose rows these are.
    pub symbol: String,
    /// The rows, strictly ascending by timestamp when well formed.
    pub rows: Vec<StoredBar>,
}

impl SymbolSeries {
    /// The stored rows, in storage order.
    pub open spec fn rows_seq(self) -> Seq<StoredBar> {
        self.rows@
    }

    /// The series as a map from timestamp to bar.
    pub open spec fn as_map(self) -> Map<int, EnhancedBar> {
        rows_to_map(self.rows_seq())
    }

    /// Rows are strictly ascending by timestamp, so timestamps are unique.
    pub open spec fn wf(self) -> bool {
        forall|i: int, j: int|
            0 <= i < j < self.rows_seq().len() ==> (#[trigger] self.rows_seq()[i]).timestamp < (
            #[trigger] self.rows_seq()[j]).timestamp
    }

    /// A timestamp is stored.
    pub open spec fn contains_ts(self, t: int) -> bool {
        ts_present(self.rows_seq(), t)
    }

    /// An empty series for a symbol.
    pub fn new(symbol: String) -> (r: SymbolSeries)
        ensures
            r.wf(),
            r.symbol == symbol,
            r.rows_seq().len() == 0,
    {
        SymbolSeries { symbol, rows: Vec::new() }
    }

    /// How many rows the series holds.
    pub fn count(&self) -> (r: usize)
        ensures
            r == self.rows_seq().len(),
    {
        self.rows.len()
    }

    /// Insert one row unless its timestamp is already stored; the row goes
    /// to its place in timestamp order. Returns whether it was inserted.
    pub fn insert_row(&mut self, t: i64, bar: EnhancedBar) -> (inserted: bool)
        requires
            old(self).wf(),
        ensures
            final(self).wf(),
            final(self).symbol == old(self).symbol,
            old(self).contains_ts(t as int) ==> !inserted && *final(self) == *old(self),
            !old(self).contains_ts(t as int) ==> inserted && final(self).as_map() == old(
                self,
            ).as_map().insert(t as int, bar) && final(self).rows_seq().len() == old(
                self,
            ).rows_seq().len() + 1,
    {
        let n = self.rows.len();
        let mut idx: usize = 0;
        while idx < n && self.rows[idx].timestamp < t
            invariant
                idx <= n,
                n == self.rows_seq().len(),
                self.wf(),
                forall|j: int| 0 <= j < idx ==> (#[trigger] self.rows_seq()[j]).timestamp < t,
            decreases n - idx,
        {
            idx = idx + 1;
        }
        if idx < n && self.rows[idx].timestamp == t {
            proof {
                assert(self.contains_ts(t as int));
            }
            return false;
        }
        proof {
            assert(!self.contains_ts(t as int)) by {
                if self.contains_ts(t as int) {
                    let j = choose|j: int|
                        0 <= j < self.rows_seq().len() && (#[trigger] self.rows_seq()[j]).timestamp
                            == t;
                    if j < idx {
                        assert(self.rows_seq()[j].timestamp < t);
                    } else if idx < n && j > idx {
                        assert(self.rows_seq()[idx as int].timestamp < self.rows_seq()[j].timestamp);
                    }
                }
            }
            lemma_rows_to_map_insert(self.rows_seq(), idx as int, StoredBar { timestamp: t, bar });
        }
        self.rows.insert(idx, StoredBar { timestamp: t, bar });
        proof {
            let rows = self.rows@;
            assert forall|i: int, j: int| 0 <= i < j < rows.len() implies (
            #[trigger] rows[i]).timestamp < (#[trigger] rows[j]).timestamp by {
                let orows = old(self).rows_seq();
                if j < idx {
                } else if i < idx && j == idx {
                } else if i < idx && j > idx {
                    assert(orows[i] == rows[i] && orows[j - 1] == rows[j]);
                } else if i == idx {
                    assert(orows[j - 1] == rows[j]);
                    assert(orows[j - 1].timestamp >= orows[idx as int].timestamp);
                } else {
                    assert(orows[i - 1] == rows[i] && orows[j - 1] == rows[j]);
                }
            }
        }
        true
    }

    /// Insert a batch of stamped rows in order, skipping every timestamp
    /// already stored — also one stored by an earlier row of the same
    /// batch. Returns the newly persisted subset, in batch order.
    pub fn insert_batch(&mut self, batch: &Vec<StoredBar>) -> (fresh: Vec<TimeSeriesData>)
        requires
            old(self).wf(),
        ensures
            final(self).wf(),
            final(self).symbol == old(self).symbol,
            final(self).as_map() == map_after_inserts(old(self).as_map(), batch@),
            fresh@ == inserted_rows(old(self).as_map(), batch@),
    {
        let ghost m0 = self.as_map();
        let mut fresh: Vec<TimeSeriesData> = Vec::new();
        let n = batch.len();
        let mut i: usize = 0;
        while i < n
            invariant
                i <= n,
                n == batch@.len(),
                self.wf(),
                self.symbol == old(self).symbol,
                self.as_map() == map_after_inserts_upto(m0, batch@, i as int),
                fresh@ == inserted_rows_upto(m0, batch@, i as int),
            decreases n - i,
        {
            let b = batch[i];
            proof {
                lemma_rows_to_map_dom(self.rows_seq());
            }
            let inserted = self.insert_row(b.timestamp, b.bar);
            if inserted {
                fresh.push(TimeSeriesData {
                    datetime: b.timestamp,
                    open: b.bar.open,
                    high: b.bar.high,
                    low: b.bar.low,
                    close: b.bar.close,
                    volume: b.bar.volume,
                });
            }
            i = i + 1;
        }
        fresh
    }

    /// The timestamp of the newest row, if the series holds any: rows
    /// ascend, so the last row is the newest.
    pub fn last_timestamp(&self) -> (r: Option<i64>)
        ensures
            ({
                let rows = self.rows_seq();
                match r {
                    Some(t) => rows.len() > 0 && t == rows[rows.len() - 1].timestamp,
                    None => rows.len() == 0,
                }
            }),
    {
        let n = self.rows.len();
        if n == 0 {
            None
        } else {
            Some(self.rows[n - 1].timestamp)
        }
    }

    /// All rows, as readers receive them, ascending by timestamp.
    pub fn read_all(&self) -> (r: Vec<TimeSeriesData>)
        ensures
            r@.len() == self.rows_seq().len(),
            forall|j: int|
                0 <= j < r@.len() ==> #[trigger] r@[j] == row_data(self.rows_seq()[j]),
    {
        let n = self.rows.len();
        let mut r: Vec<TimeSeriesData> = Vec::new();
        let mut i: usize = 0;
        while i < n
            invariant
                i <= n,
                n == self.rows_seq().len(),
                r@.len() == i,
                forall|j: int| 0 <= j < i ==> #[trigger] r@[j] == row_data(self.rows_seq()[j]),
            decreases n - i,
        {
            let b = self.rows[i];
            r.push(TimeSeriesData {
                datetime: b.timestamp,
                open: b.bar.open,
                high: b.bar.high,
                low: b.bar.low,
                close: b.bar.close,
                volume: b.bar.volume,
            });
            i = i + 1;
        }
        r
    }

    /// The rows with `start <= timestamp <= end`, as readers receive them,
    /// ascending by timestamp.
    pub fn read_range(&self, start: i64, end: i64) -> (r: Vec<TimeSeriesData>)
        ensures
            r@ == range_rows(self.rows_seq(), start as int, end as int, self.rows_seq().len() as int),
    {
        let n = self.rows.len();
        let mut r: Vec<TimeSeriesData> = Vec::new();
        let mut i: usize = 0;
        while i < n
            invariant
                i <= n,
                n == self.rows_seq().len(),
                r@ == range_rows(self.rows_seq(), start as int, end as int, i as int),
            decreases n - i,
        {
            let b = self.rows[i];
            if start <= b.timestamp && b.timestamp <= end {
                r.push(TimeSeriesData {
                    datetime: b.timestamp,
                    open: b.bar.open,
                    high: b.bar.high,
                    low: b.bar.low,
                    close: b.bar.close,
                    volume: b.bar.volume,
                });
            }
            i = i + 1;
        }
        r
    }

    /// With a well-formed series, the stored row count equals the number of
    /// distinct timestamps, the map's cardinality.
    pub proof fn lemma_count_is_map_len(self)
        requires
            self.wf(),
        ensures
            self.as_map().dom().len() == self.rows_seq().len(),
    {
        lemma_rows_to_map_len(self.rows_seq());
    }
}

/// The rows among the first `i` whose timestamp lies in `[start, end]`, in
/// storage order, as readers receive them.
pub open spec fn range_rows(rows: Seq<StoredBar>, start: int, end: int, i: int) -> Seq<
    TimeSeriesData,
>
    decreases i,
{
    if i <= 0 {
        Seq::empty()
    } else {
        let prefix = range_rows(rows, start, end, i - 1);
        if start <= rows[i - 1].timestamp <= end {
            prefix.push(row_data(rows[i - 1]))
        } else {
            prefix
        }
    }
}

/// The first index at or after `j` of the table for `sym`, or -1.
pub open spec fn sym_index_from(tables: Seq<SymbolSeries>, sym: Seq<char>, j: int) -> int
    decreases tables.len() - j,
{
    if j < 0 || j >= tables.len() {
        -1
    } else if tables[j].symbol@ == sym {
        j
    } else {
        sym_index_from(tables, sym, j + 1)
    }
}

/// Every table is well formed and no two tables serve one symbol.
pub open spec fn tables_wf(tables: Seq<SymbolSeries>) -> bool {
    &&& forall|i: int| 0 <= i < tables.len() ==> (#[trigger] tables[i]).wf()
    &&& forall|i: int, j: int|
        0 <= i < j < tables.len() ==> (#[trigger] tables[i]).symbol@ != (
        #[trigger] tables[j]).symbol@
}

/// The stored rows of a symbol's series; empty with no table for it.
pub open spec fn table_rows(tables: Seq<SymbolSeries>, sym: Seq<char>) -> Seq<StoredBar> {
    let i = sym_index_from(tables, sym, 0);
    if i < 0 {
        Seq::empty()
    } else {
        tables[i].rows_seq()
    }
}

/// A symbol's series as a map from timestamp to bar.
pub open spec fn table_map(tables: Seq<SymbolSeries>, sym: Seq<char>) -> Map<int, EnhancedBar> {
    rows_to_map(table_rows(tables, sym))
}

/// A found index is in range and carries the symbol; -1 means no table does.
proof fn lemma_sym_index_spec(tables: Seq<SymbolSeries>, sym: Seq<char>, j: int)
    requires
        0 <= j <= tables.len(),
    ensures
        ({
            let r = sym_index_from(tables, sym, j);
            &&& r >= 0 ==> j <= r < tables.len() && tables[r].symbol@ == sym
            &&& r < 0 ==> forall|q: int| j <= q < tables.len() ==> (#[trigger] tables[q]).symbol@
                != sym
        }),
    decreases tables.len() - j,
{
    if j < tables.len() && tables[j].symbol@ != sym {
        lemma_sym_index_spec(tables, sym, j + 1);
    }
}

/// Two table lists of one length whose tables serve the same symbols
/// pointwise give every symbol the same index.
proof fn lemma_sym_index_same(t1: Seq<SymbolSeries>, t2: Seq<SymbolSeries>, sym: Seq<char>, j: int)
    requires
        t1.len() == t2.len(),
        forall|k: int| 0 <= k < t1.len() ==> (#[trigger] t1[k]).symbol@ == (#[trigger] t2[k]).symbol@,
        0 <= j <= t1.len(),
    ensures
        sym_index_from(t1, sym, j) == sym_index_from(t2, sym, j),
    decreases t1.len() - j,
{
    if j < t1.len() && t1[j].symbol@ != sym {
        lemma_sym_index_same(t1, t2, sym, j + 1);
    }
}

/// Appending a table changes no symbol's index except the appended symbol's
/// own, which gets the old length when it had no table yet.
proof fn lemma_sym_index_push(tables: Seq<SymbolSeries>, x: SymbolSeries, sym: Seq<char>, j: int)
    requires
        0 <= j <= tables.len(),
    ensures
        sym_index_from(tables.push(x), sym, j) == if sym_index_from(tables, sym, j) >= 0 {
            sym_index_from(tables, sym, j)
        } else if x.symbol@ == sym {
            tables.len() as int
        } else {
            -1
        },
    decreases tables.len() - j,
{
    if j < tables.len() {
        assert(tables.push(x)[j] == tables[j]);
        if tables[j].symbol@ != sym {
            lemma_sym_index_push(tables, x, sym, j + 1);
        }
    } else {
        assert(tables.push(x)[j] == x);
        assert(sym_index_from(tables.push(x), sym, j + 1) == -1);
    }
}

/// The first table for the symbol, if any table serves it.
fn find_table(tables: &Vec<SymbolSeries>, symbol: &str) -> (r: Option<usize>)
    ensures
        ({
            let idx = sym_index_from(tables@, symbol@, 0);
            match r {
                Some(i) => idx == i as int && i < tables@.len(),
                None => idx == -1,
            }
        }),
{
    let n = tables.len();
    let mut i: usize = 0;
    while i < n
        invariant
            i <= n,
            n == tables@.len(),
            sym_index_from(tables@, symbol@, 0) == sym_index_from(tables@, symbol@, i as int),
        decreases n - i,
    {
        if crate::str_eq(tables[i].symbol.as_str(), symbol) {
            return Some(i);
        }
        i = i + 1;
    }
    None
}

/// Insert a stamped batch into the table for `symbol`, creating the table
/// when none serves the symbol yet. Returns the newly persisted subset.
fn insert_into(tables: &mut Vec<SymbolSeries>, symbol: &str, batch: &Vec<StoredBar>) -> (fresh: Vec<
    TimeSeriesData,
>)
    requires
        tables_wf(old(tables)@),
    ensures
        tables_wf(final(tables)@),
        table_map(final(tables)@, symbol@) == map_after_inserts(
            table_map(old(tables)@, symbol@),
            batch@,
        ),
        fresh@ == inserted_rows(table_map(old(tables)@, symbol@), batch@),
        forall|s: Seq<char>|
            s != symbol@ ==> #[trigger] table_rows(final(tables)@, s) == table_rows(
                old(tables)@,
                s,
            ),
{
    let ghost t0 = tables@;
    proof {
        lemma_sym_index_spec(t0, symbol@, 0);
    }
    match find_table(tables, symbol) {
        Some(i) => {
            let mut tab = tables.remove(i);
            let ghost tab0 = tab;
            let fresh = tab.insert_batch(batch);
            tables.insert(i, tab);
            proof {
                let t1 = tables@;
                assert(t1 =~= t0.update(i as int, tab));
                assert(forall|k: int|
                    0 <= k < t1.len() ==> (#[trigger] t0[k]).symbol@ == (#[trigger] t1[k]).symbol@);
                assert forall|s: Seq<char>| true implies sym_index_from(t1, s, 0)
                    == sym_index_from(t0, s, 0) by {
                    lemma_sym_index_same(t0, t1, s, 0);
                }
                assert forall|s: Seq<char>| s != symbol@ implies #[trigger] table_rows(t1, s)
                    == table_rows(t0, s) by {
                    lemma_sym_index_spec(t0, s, 0);
                    let k = sym_index_from(t0, s, 0);
                    if k >= 0 {
                        assert(t0[k].symbol@ == s);
                        assert(k != i as int);
                        assert(t1[k] == t0[k]);
                    }
                }
            }
            fresh
        },
        None => {
            let mut tab = SymbolSeries::new(String::from_str(symbol));
            proof {
                assert(tab.as_map() =~= Map::empty());
                assert(table_rows(t0, symbol@) == Seq::<StoredBar>::empty());
                assert(table_map(t0, symbol@) =~= Map::empty());
            }
            let fresh = tab.insert_batch(batch);
            tables.push(tab);
            proof {
                let t1 = tables@;
                assert forall|s: Seq<char>| true implies sym_index_from(t1, s, 0) == (
                if sym_index_from(t0, s, 0) >= 0 {
                    sym_index_from(t0, s, 0)
                } else if tab.symbol@ == s {
                    t0.len() as int
                } else {
                    -1
                }) by {
                    lemma_sym_index_push(t0, tab, s, 0);
                }
                assert(tab.symbol@ == symbol@);
                assert(sym_index_from(t1, symbol@, 0) == t0.len() as int);
                assert(table_rows(t1, symbol@) == tab.rows_seq());
                assert forall|s: Seq<char>| s != symbol@ implies #[trigger] table_rows(t1, s)
                    == table_rows(t0, s) by {
                    lemma_sym_index_spec(t0, s, 0);
                    let k = sym_index_from(t0, s, 0);
                    if k >= 0 {
                        assert(t1[k] == t0[k]);
                    }
                }
                assert forall|i: int, j: int| 0 <= i < j < t1.len() implies (
                #[trigger] t1[i]).symbol@ != (#[trigger] t1[j]).symbol@ by {
                    if j == t1.len() - 1 {
                        lemma_sym_index_spec(t0, t1[j].symbol@, 0);
                    }
                }
            }
            fresh
        },
    }
}

/// The stored rows that a batch of minute bars becomes: synthetic
/// timestamps counted backward from `base` in 60-second steps, the last bar
/// 60 seconds before `base`.
pub open spec fn minute_stamped(bars: Seq<EnhancedBar>, base: int) -> Seq<StoredBar> {
    Seq::new(
        bars.len(),
        |i: int|
            StoredBar {
                timestamp: (base - 60 * (bars.len() - i)) as i64,
                bar: bars[i],
            },
    )
}

/// The stored rows that a batch of daily bars becomes: each calendar date
/// pinned to the fixed time of day, with zeroed indicators.
pub open spec fn daily_stamped(bars: Seq<DailyBar>) -> Seq<StoredBar> {
    Seq::new(
        bars.len(),
        |i: int|
            StoredBar {
                timestamp: (bars[i].date * 86400 + DAILY_PIN_SECONDS) as i64,
                bar: EnhancedBar {
                    open: bars[i].open,
                    high: bars[i].high,
                    low: bars[i].low,
                    close: bars[i].close,
                    volume: bars[i].volume,
                    sma: 0,
                    ema: 0,
                    rsi: 0,
                    stochastic: 0,
                    macd_value: 0,
                    signal_value: 0,
                    hist_value: 0,
                },
            },
    )
}

/// Stamp minute bars with their synthetic back-filled timestamps.
fn stamp_minute(bars: &Vec<EnhancedBar>, base_timestamp: i64) -> (r: Vec<StoredBar>)
    requires
        i64::MIN + 60 * (bars@.len() as int) <= base_timestamp,
    ensures
        r@ == minute_stamped(bars@, base_timestamp as int),
{
    let n = bars.len();
    let mut r: Vec<StoredBar> = Vec::new();
    let mut i: usize = 0;
    while i < n
        invariant
            i <= n,
            n == bars@.len(),
            i64::MIN + 60 * (n as int) <= base_timestamp,
            r@.len() == i,
            forall|j: int|
                0 <= j < i ==> #[trigger] r@[j] == minute_stamped(
                    bars@,
                    base_timestamp as int,
                )[j],
        decreases n - i,
    {
        let back: i128 = 60 * ((n - i) as i128);
        let ts: i128 = base_timestamp as i128 - back;
        r.push(StoredBar { timestamp: ts as i64, bar: bars[i] });
        i = i + 1;
    }
    proof {
        assert(r@ =~= minute_stamped(bars@, base_timestamp as int));
    }
    r
}

/// Stamp daily bars with their pinned timestamps.
fn stamp_daily(bars: &Vec<DailyBar>) -> (r: Vec<StoredBar>)
    requires
        forall|i: int|
            0 <= i < bars@.len() ==> -100000000000000 <= (#[trigger] bars@[i]).date
                <= 100000000000000,
    ensures
        r@ == daily_stamped(bars@),
{
    let n = bars.len();
    let mut r: Vec<StoredBar> = Vec::new();
    let mut i: usize = 0;
    while i < n
        invariant
            i <= n,
            n == bars@.len(),
            forall|j: int|
                0 <= j < n ==> -100000000000000 <= (#[trigger] bars@[j]).date <= 100000000000000,
            r@.len() == i,
            forall|j: int| 0 <= j < i ==> #[trigger] r@[j] == daily_stamped(bars@)[j],
        decreases n - i,
    {
        let b = bars[i];
        let ts: i64 = b.date * 86400 + DAILY_PIN_SECONDS;
        r.push(
            StoredBar {
                timestamp: ts,
                bar: EnhancedBar::from_ohlcv(b.open, b.high, b.low, b.close, b.volume),
            },
        );
        i = i + 1;
    }
    proof {
        assert(r@ =~= daily_stamped(bars@));
    }
    r
}

/// Turn a provider's minute series into readable samples under the same
/// synthetic back-filled timestamps that ingestion assigns.
pub fn marketdata_to_timeseries(bars: &Vec<EnhancedBar>, base_timestamp: i64) -> (r: Vec<
    TimeSeriesData,
>)
    requires
        i64::MIN + 60 * (bars@.len() as int) <= base_timestamp,
    ensures
        r@.len() == bars@.len(),
        forall|j: int|
            0 <= j < r@.len() ==> #[trigger] r@[j] == row_data(
                minute_stamped(bars@, base_timestamp as int)[j],
            ),
{
    let stamped = stamp_minute(bars, base_timestamp);
    let n = stamped.len();
    let mut r: Vec<TimeSeriesData> = Vec::new();
    let mut i: usize = 0;
    while i < n
        invariant
            i <= n,
            n == stamped@.len(),
            stamped@ == minute_stamped(bars@, base_timestamp as int),
            n == bars@.len(),
            r@.len() == i,
            forall|j: int| 0 <= j < i ==> #[trigger] r@[j] == row_data(stamped@[j]),
        decreases n - i,
    {
        let b = stamped[i];
        r.push(TimeSeriesData {
            datetime: b.timestamp,
            open: b.bar.open,
            high: b.bar.high,
            low: b.bar.low,
            close: b.bar.close,
            volume: b.bar.volume,
        });
        i = i + 1;
    }
    r
}

/// The series store: the minute-level table and the daily table, each a
/// set of per-symbol series de-duplicated by timestamp.
pub struct SeriesStore {
    live: Vec<SymbolSeries>,
    daily: Vec<SymbolSeries>,
}

impl SeriesStore {
    /// The per-symbol minute-level series.
    pub closed spec fn live_tables(self) -> Seq<SymbolSeries> {
        self.live@
    }

    /// The per-symbol daily series.
    pub closed spec fn daily_tables(self) -> Seq<SymbolSeries> {
        self.daily@
    }

    /// Both tables are well formed.
    pub open spec fn wf(self) -> bool {
        tables_wf(self.live_tables()) && tables_wf(self.daily_tables())
    }

    /// An empty store.
    pub fn new() -> (r: SeriesStore)
        ensures
            r.wf(),
            r.live_tables().len() == 0,
            r.daily_tables().len() == 0,
    {
        SeriesStore { live: Vec::new(), daily: Vec::new() }
    }

    /// How many minute-level rows the symbol's series holds.
    pub fn live_data_count(&self, metadata: &MetaData) -> (r: usize)
        ensures
            r == table_rows(self.live_tables(), metadata.symbol@).len(),
    {
        match find_table(&self.live, metadata.symbol.as_str()) {
            Some(i) => self.live[i].count(),
            None => 0,
        }
    }

    /// The symbol's minute-level rows, ascending by timestamp.
    pub fn live_data(&self, metadata: &MetaData) -> (r: Vec<TimeSeriesData>)
        ensures
            ({
                let rows = table_rows(self.live_tables(), metadata.symbol@);
                &&& r@.len() == rows.len()
                &&& forall|j: int| 0 <= j < r@.len() ==> #[trigger] r@[j] == row_data(rows[j])
            }),
    {
        match find_table(&self.live, metadata.symbol.as_str()) {
            Some(i) => self.live[i].read_all(),
            None => Vec::new(),
        }
    }

    /// Ingest a provider's minute series: each bar gets a synthetic
    /// timestamp counted backward from `base_timestamp` in 60-second steps,
    /// a bar whose timestamp is already stored is skipped, and the newly
    /// persisted subset is returned in batch order.
    pub fn insert_live_data(
        &mut self,
        metadata: &MetaData,
        bars: &Vec<EnhancedBar>,
        base_timestamp: i64,
    ) -> (fresh: Vec<TimeSeriesData>)
        requires
            old(self).wf(),
            i64::MIN + 60 * (bars@.len() as int) <= base_timestamp,
        ensures
            final(self).wf(),
            ({
                let stamped = minute_stamped(bars@, base_timestamp as int);
                let m0 = table_map(old(self).live_tables(), metadata.symbol@);
                &&& table_map(final(self).live_tables(), metadata.symbol@) == map_after_inserts(
                    m0,
                    stamped,
                )
                &&& fresh@ == inserted_rows(m0, stamped)
            }),
            forall|s: Seq<char>|
                s != metadata.symbol@ ==> #[trigger] table_rows(final(self).live_tables(), s)
                    == table_rows(old(self).live_tables(), s),
            final(self).daily_tables() == old(self).daily_tables(),
    {
        let stamped = stamp_minute(bars, base_timestamp);
        insert_into(&mut self.live, metadata.symbol.as_str(), &stamped)
    }

    /// The symbol's minute-level rows within the metadata's query window,
    /// ascending by timestamp.
    pub fn live_data_range(&self, metadata: &MetaData) -> (r: Vec<TimeSeriesData>)
        ensures
            ({
                let rows = table_rows(self.live_tables(), metadata.symbol@);
                r@ == range_rows(
                    rows,
                    metadata.start_date as int,
                    metadata.end_date as int,
                    rows.len() as int,
                )
            }),
    {
        match find_table(&self.live, metadata.symbol.as_str()) {
            Some(i) => self.live[i].read_range(metadata.start_date, metadata.end_date),
            None => Vec::new(),
        }
    }

    /// The timestamp of the symbol's newest daily row, if it has any: with
    /// a well-formed store the rows ascend, so the last row is the newest.
    pub fn last_daily_timestamp(&self, metadata: &MetaData) -> (r: Option<i64>)
        ensures
            ({
                let rows = table_rows(self.daily_tables(), metadata.symbol@);
                match r {
                    Some(t) => rows.len() > 0 && t == rows[rows.len() - 1].timestamp,
                    None => rows.len() == 0,
                }
            }),
    {
        match find_table(&self.daily, metadata.symbol.as_str()) {
            Some(i) => self.daily[i].last_timestamp(),
            None => None,
        }
    }

    /// How many daily rows the symbol's series holds.
    pub fn timeseries_count(&self, metadata: &MetaData) -> (r: usize)
        ensures
            r == table_rows(self.daily_tables(), metadata.symbol@).len(),
    {
        match find_table(&self.daily, metadata.symbol.as_str()) {
            Some(i) => self.daily[i].count(),
            None => 0,
        }
    }

    /// The symbol's daily rows within the metadata's query window,
    /// ascending by timestamp.
    pub fn timeseries(&self, metadata: &MetaData) -> (r: Vec<TimeSeriesData>)
        ensures
            ({
                let rows = table_rows(self.daily_tables(), metadata.symbol@);
                r@ == range_rows(
                    rows,
                    metadata.start_date as int,
                    metadata.end_date as int,
                    rows.len() as int,
                )
            }),
    {
        match find_table(&self.daily, metadata.symbol.as_str()) {
            Some(i) => self.daily[i].read_range(metadata.start_date, metadata.end_date),
            None => Vec::new(),
        }
    }

    /// Ingest a provider's daily series: each bar's date is pinned to the
    /// fixed time of day, a bar whose timestamp is already stored is
    /// skipped, and the newly persisted subset is returned in batch order.
    pub fn insert_timeseries(&mut self, metadata: &MetaData, bars: &Vec<DailyBar>) -> (fresh: Vec<
        TimeSeriesData,
    >)
        requires
            old(self).wf(),
            forall|i: int|
                0 <= i < bars@.len() ==> -100000000000000 <= (#[trigger] bars@[i]).date
                    <= 100000000000000,
        ensures
            final(self).wf(),
            ({
                let stamped = daily_stamped(bars@);
                let m0 = table_map(old(self).daily_tables(), metadata.symbol@);
                &&& table_map(final(self).daily_tables(), metadata.symbol@) == map_after_inserts(
                    m0,
                    stamped,
                )
                &&& fresh@ == inserted_rows(m0, stamped)
            }),
            forall|s: Seq<char>|
                s != metadata.symbol@ ==> #[trigger] table_rows(final(self).daily_tables(), s)
                    == table_rows(old(self).daily_tables(), s),
            final(self).live_tables() == old(self).live_tables(),
    {
        let stamped = stamp_daily(bars);
        insert_into(&mut self.daily, metadata.symbol.as_str(), &stamped)
    }
}

/// Relies on chrono's Utc::now().timestamp(): the time now, as epoch
/// seconds. Utc::now is built from the duration since the Unix epoch, so
/// the result is never negative; on a machine whose clock reads before the
/// epoch the call panics inside chrono instead of returning.
#[verifier::external_body]
fn now_epoch_seconds() -> (r: i64)
    ensures
        0 <= r,
{
    chrono::Utc::now().timestamp()
}

impl SeriesStore {
    /// Ingest a provider's minute series against the machine clock now: the
    /// bars get synthetic timestamps counted backward from the current
    /// epoch second. The clock is never negative, so unless the batch is so
    /// long that sixty seconds per bar cannot fit in an i64 — no provider
    /// response is — the batch is stored.
    pub fn insert_live_data_now(&mut self, metadata: &MetaData, bars: &Vec<EnhancedBar>) -> (fresh:
        Vec<TimeSeriesData>)
        requires
            old(self).wf(),
        ensures
            final(self).wf(),
            final(self).daily_tables() == old(self).daily_tables(),
            forall|s: Seq<char>|
                s != metadata.symbol@ ==> #[trigger] table_rows(final(self).live_tables(), s)
                    == table_rows(old(self).live_tables(), s),
            60 * (bars@.len() as int) <= 0x8000000000000000 ==> exists|base: int|
                {
                    let stamped = #[trigger] minute_stamped(bars@, base);
                    let m0 = table_map(old(self).live_tables(), metadata.symbol@);
                    &&& 0 <= base <= i64::MAX
                    &&& table_map(final(self).live_tables(), metadata.symbol@)
                        == map_after_inserts(m0, stamped)
                    &&& fresh@ == inserted_rows(m0, stamped)
                },
            60 * (bars@.len() as int) > 0x8000000000000000 ==> ((final(self).live_tables() == old(
                self,
            ).live_tables() && fresh@.len() == 0) || exists|base: int|
                {
                    let stamped = #[trigger] minute_stamped(bars@, base);
                    let m0 = table_map(old(self).live_tables(), metadata.symbol@);
                    &&& 0 <= base <= i64::MAX
                    &&& table_map(final(self).live_tables(), metadata.symbol@)
                        == map_after_inserts(m0, stamped)
                    &&& fresh@ == inserted_rows(m0, stamped)
                }),
    {
        let base = now_epoch_seconds();
        let floor: i128 = i64::MIN as i128 + 60 * (bars.len() as i128);
        if (base as i128) < floor {
            proof {
                assert(60 * (bars@.len() as int) > 0x8000000000000000);
            }
            return Vec::new();
        }
        let fresh = self.insert_live_data(metadata, bars, base);
        proof {
            let stamped = minute_stamped(bars@, base as int);
            assert(0 <= base as int <= i64::MAX);
        }
        fresh
    }

    /// Load previously persisted minute rows, as a durable mirror hands
    /// them back at startup: each row keeps its stored timestamp, and a
    /// timestamp already present is skipped.
    pub fn insert_live_rows(&mut self, metadata: &MetaData, rows: &Vec<StoredBar>) -> (fresh: Vec<
        TimeSeriesData,
    >)
        requires
            old(self).wf(),
        ensures
            final(self).wf(),
            final(self).daily_tables() == old(self).daily_tables(),
            ({
                let m0 = table_map(old(self).live_tables(), metadata.symbol@);
                &&& table_map(final(self).live_tables(), metadata.symbol@) == map_after_inserts(
                    m0,
                    rows@,
                )
                &&& fresh@ == inserted_rows(m0, rows@)
            }),
            forall|s: Seq<char>|
                s != metadata.symbol@ ==> #[trigger] table_rows(final(self).live_tables(), s)
                    == table_rows(old(self).live_tables(), s),
    {
        insert_into(&mut self.live, metadata.symbol.as_str(), rows)
    }

    /// Load previously persisted daily rows, as a durable mirror hands
    /// them back at startup: each row keeps its stored timestamp, and a
    /// timestamp already present is skipped.
    pub fn insert_daily_rows(&mut self, metadata: &MetaData, rows: &Vec<StoredBar>) -> (fresh: Vec<
        TimeSeriesData,
    >)
        requires
            old(self).wf(),
        ensures
            final(self).wf(),
            final(self).live_tables() == old(self).live_tables(),
            ({
                let m0 = table_map(old(self).daily_tables(), metadata.symbol@);
                &&& table_map(final(self).daily_tables(), metadata.symbol@) == map_after_inserts(
                    m0,
                    rows@,
                )
                &&& fresh@ == inserted_rows(m0, rows@)
            }),
            forall|s: Seq<char>|
                s != metadata.symbol@ ==> #[trigger] table_rows(final(self).daily_tables(), s)
                    == table_rows(old(self).daily_tables(), s),
    {
        insert_into(&mut self.daily, metadata.symbol.as_str(), rows)
    }
}

} // verus!
