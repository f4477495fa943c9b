//! Detectors over price sequences: slope and trend, jumps and drops,
//! block smoothing and season splitting.
//!
//! Every detector is a pure function over integer price sequences. None
//! panics: malformed input (an empty series, a window that does not fit,
//! mismatched parallel arrays) yields zero or an empty result. A pair whose
//! base price is not positive yields no jump or drop event and a zero
//! percentage: a percentage of a non-positive price has no meaning.

use vstd::prelude::*;

use crate::events::{JumpEventData, RecurringEventData};
use crate::{abs_i, ratio_abs_above_bp, ratio_above_bp, ratio_lt, Ratio};

verus! {

/// The signed percentage change from `prev` to `cur`, `100 * (cur - prev) / prev`,
/// as a well-formed ratio; zero when `prev` is zero.
pub open spec fn percent_change_spec(prev: i64, cur: i64) -> Ratio {
    if prev > 0 {
        Ratio { num: (100 * (cur - prev)) as i128, den: prev as i128 }
    } else if prev < 0 {
        Ratio { num: (-100 * (cur - prev)) as i128, den: (-(prev as int)) as i128 }
    } else {
        Ratio::spec_zero()
    }
}

/// The signed percentage change from `prev` to `cur`.
pub fn percent_change(prev: i64, cur: i64) -> (r: Ratio)
    ensures
        r == percent_change_spec(prev, cur),
        r.wf(),
{
    if prev > 0 {
        Ratio { num: 100 * (cur as i128 - prev as i128), den: prev as i128 }
    } else if prev < 0 {
        Ratio { num: -(100 * (cur as i128 - prev as i128)), den: -(prev as i128) }
    } else {
        Ratio::zero()
    }
}

/// The average first-difference over the `k` most recent adjacent pairs:
/// the sum of `(s[i+1] - s[i]) / k` over the last `k` pairs, which
/// telescopes to `(s[len-1] - s[len-1-k]) / k`. Zero when `k` is zero or
/// the series holds fewer than `k + 1` points.
pub open spec fn slope_spec(s: Seq<i64>, k: int) -> Ratio {
    if k < 1 || s.len() < k + 1 {
        Ratio::spec_zero()
    } else {
        Ratio { num: (s[s.len() - 1] - s[s.len() - 1 - k]) as i128, den: k as i128 }
    }
}

/// The average slope over the `last_x` most recent adjacent pairs of the series.
pub fn slope(series: &Vec<i64>, last_x: usize) -> (r: Ratio)
    ensures
        r == slope_spec(series@, last_x as int),
        r.wf(),
{
    let n = series.len();
    if last_x == 0 || n == 0 || last_x > n - 1 {
        return Ratio::zero();
    }
    let start = n - 1 - last_x;
    let mut total: i128 = 0;
    let mut i = start;
    while i < n - 1
        invariant
            start <= i <= n - 1,
            n == series@.len(),
            start == n - 1 - last_x,
            total == series@[i as int] - series@[start as int],
        decreases n - 1 - i,
    {
        total = total + (series[i + 1] as i128 - series[i] as i128);
        i = i + 1;
    }
    Ratio { num: total, den: last_x as i128 }
}

/// True when the step from `prev` to `cur` is a jump above `up` basis
/// points (rising) or a drop of magnitude above `abs(down)` basis points
/// (falling). A non-positive base price never fires.
pub open spec fn jump_fires(prev: i64, cur: i64, up: int, down: int) -> bool {
    prev > 0 && if cur < prev {
        10000 * (prev - cur) > abs_i(down) * prev
    } else {
        10000 * (cur - prev) > up * prev
    }
}

/// The `(timestamp, signed percent)` pairs of every firing step among the
/// first `i` elements of the series, in series order.
pub open spec fn jump_points_upto(
    ts: Seq<i64>,
    s: Seq<i64>,
    up: int,
    down: int,
    i: int,
) -> Seq<(i64, Ratio)>
    decreases i,
{
    if i <= 1 {
        Seq::empty()
    } else {
        let prefix = jump_points_upto(ts, s, up, down, i - 1);
        if jump_fires(s[i - 2], s[i - 1], up, down) {
            prefix.push((ts[i - 1], percent_change_spec(s[i - 2], s[i - 1])))
        } else {
            prefix
        }
    }
}

/// The `(timestamp, signed percent)` pairs of every firing step of the series.
pub open spec fn jump_points(ts: Seq<i64>, s: Seq<i64>, up: int, down: int) -> Seq<(i64, Ratio)> {
    jump_points_upto(ts, s, up, down, s.len() as int)
}

/// The event record `e` carries the firing point `p` for `sym`.
pub open spec fn event_matches(e: JumpEventData, p: (i64, Ratio), sym: Seq<char>) -> bool {
    e.datetime == p.0 && e.percent == p.1 && e.symbol@ == sym
}

/// Detect jumps and drops: for every adjacent pair of the price series whose
/// percentage change rises above `threshold_up` basis points or falls by
/// more than `abs(threshold_down)` basis points, emit one event carrying the
/// timestamp of the later bar and the signed percentage. The two parallel
/// arrays must have equal length, else the result is empty.
pub fn jumps_in_series(
    symbol: &str,
    timestamps: &Vec<i64>,
    series: &Vec<i64>,
    threshold_up: i64,
    threshold_down: i64,
) -> (r: Vec<JumpEventData>)
    ensures
        timestamps@.len() != series@.len() ==> r@.len() == 0,
        timestamps@.len() == series@.len() ==> ({
            let pts = jump_points(
                timestamps@,
                series@,
                threshold_up as int,
                threshold_down as int,
            );
            &&& r@.len() == pts.len()
            &&& forall|j: int| 0 <= j < pts.len() ==> event_matches(#[trigger] r@[j], pts[j], symbol@)
        }),
{
    let mut r: Vec<JumpEventData> = Vec::new();
    if timestamps.len() != series.len() {
        return r;
    }
    let n = series.len();
    if n == 0 {
        return r;
    }
    let mut i: usize = 1;
    while i < n
        invariant
            1 <= i <= n,
            n == series@.len(),
            n == timestamps@.len(),
            ({
                let pts = jump_points_upto(
                    timestamps@,
                    series@,
                    threshold_up as int,
                    threshold_down as int,
                    i as int,
                );
                &&& r@.len() == pts.len()
                &&& forall|j: int|
                    0 <= j < pts.len() ==> event_matches(#[trigger] r@[j], pts[j], symbol@)
            }),
        decreases n - i,
    {
        let prev = series[i - 1];
        let cur = series[i];
        if prev > 0 {
            let p: i128 = prev as i128;
            let c: i128 = cur as i128;
            let fired: bool;
            if cur < prev {
                let dabs: i128 = if threshold_down < 0 {
                    -(threshold_down as i128)
                } else {
                    threshold_down as i128
                };
                proof {
                    assert(i128::MIN <= dabs * p <= i128::MAX) by (nonlinear_arith)
                        requires
                            0 <= dabs <= 0x8000000000000000,
                            0 < p <= 0x7fffffffffffffff,
                    ;
                }
                fired = 10000 * (p - c) > dabs * p;
            } else {
                let u: i128 = threshold_up as i128;
                proof {
                    assert(i128::MIN <= u * p <= i128::MAX) by (nonlinear_arith)
                        requires
                            -0x8000000000000000 <= u <= 0x7fffffffffffffff,
                            0 < p <= 0x7fffffffffffffff,
                    ;
                }
                fired = 10000 * (c - p) > u * p;
            }
            if fired {
                let ev = JumpEventData {
                    datetime: timestamps[i],
                    symbol: String::from_str(symbol),
                    percent: percent_change(prev, cur),
                };
                r.push(ev);
            }
        }
        i = i + 1;
    }
    r
}

/// The signed percentage that the trend detector reports for the series:
/// with at least 15 points, the slopes over the last 5, 10 and 15 pairs
/// must share one sign and grow strictly in magnitude toward the present,
/// and the percentage change from 5 bars ago to now must beat the
/// direction's threshold; then that percentage, else zero.
pub open spec fn trend_signal(s: Seq<i64>, up: int, down: int) -> Ratio {
    if s.len() < 15 {
        Ratio::spec_zero()
    } else {
        let sl5 = slope_spec(s, 5);
        let sl10 = slope_spec(s, 10);
        let sl15 = slope_spec(s, 15);
        let pct = percent_change_spec(s[s.len() - 6], s[s.len() - 1]);
        if sl5.num < 0 && sl10.num < 0 && sl15.num < 0 && ratio_lt(sl5, sl10) && ratio_lt(
            sl10,
            sl15,
        ) && ratio_abs_above_bp(pct, down) {
            pct
        } else if sl5.num > 0 && sl10.num > 0 && sl15.num > 0 && ratio_lt(sl10, sl5) && ratio_lt(
            sl15,
            sl10,
        ) && ratio_above_bp(pct, up) {
            pct
        } else {
            Ratio::spec_zero()
        }
    }
}

/// Detect an accelerating trend: returns the signed percentage change from
/// 5 bars ago to now when the slopes over the last 5, 10 and 15 pairs share
/// one sign, grow strictly in magnitude toward the present, and that
/// percentage beats `threshold_up` (rising) or `abs(threshold_down)`
/// (falling) basis points; else zero.
pub fn increasing_slope(series: &Vec<i64>, threshold_up: i64, threshold_down: i64) -> (r: Ratio)
    ensures
        r == trend_signal(series@, threshold_up as int, threshold_down as int),
        r.wf(),
{
    let n = series.len();
    if n < 15 {
        return Ratio::zero();
    }
    let sl5 = slope(series, 5);
    let sl10 = slope(series, 10);
    let sl15 = slope(series, 15);
    let pct = percent_change(series[n - 6], series[n - 1]);
    proof {
        assert(-0x10000000000000000 <= sl5.num <= 0x10000000000000000);
        assert(-0x10000000000000000 <= sl10.num <= 0x10000000000000000);
        assert(-0x10000000000000000 <= sl15.num <= 0x10000000000000000);
        assert(1 <= sl5.den <= 15 && 1 <= sl10.den <= 15 && 1 <= sl15.den <= 15);
    }
    let down_ok: bool;
    let up_ok: bool;
    {
        let dabs: i128 = if threshold_down < 0 {
            -(threshold_down as i128)
        } else {
            threshold_down as i128
        };
        let pabs: i128 = if pct.num < 0 {
            -pct.num
        } else {
            pct.num
        };
        proof {
            assert(i128::MIN <= dabs * pct.den <= i128::MAX) by (nonlinear_arith)
                requires
                    0 <= dabs <= 0x8000000000000000,
                    0 < pct.den <= 0x8000000000000000,
            ;
        }
        down_ok = 100 * pabs > dabs * pct.den;
        let u: i128 = threshold_up as i128;
        proof {
            assert(i128::MIN <= u * pct.den <= i128::MAX) by (nonlinear_arith)
                requires
                    -0x8000000000000000 <= u <= 0x7fffffffffffffff,
                    0 < pct.den <= 0x8000000000000000,
            ;
        }
        up_ok = 100 * pct.num > u * pct.den;
    }
    proof {
        assert({
            &&& i128::MIN <= sl5.num * sl10.den <= i128::MAX
            &&& i128::MIN <= sl10.num * sl5.den <= i128::MAX
            &&& i128::MIN <= sl10.num * sl15.den <= i128::MAX
            &&& i128::MIN <= sl15.num * sl10.den <= i128::MAX
        }) by (nonlinear_arith)
            requires
                -0x10000000000000000 <= sl5.num <= 0x10000000000000000,
                -0x10000000000000000 <= sl10.num <= 0x10000000000000000,
                -0x10000000000000000 <= sl15.num <= 0x10000000000000000,
                1 <= sl5.den <= 15,
                1 <= sl10.den <= 15,
                1 <= sl15.den <= 15,
        ;
    }
    if sl5.num < 0 && sl10.num < 0 && sl15.num < 0 && sl5.num * sl10.den < sl10.num * sl5.den
        && sl10.num * sl15.den < sl15.num * sl10.den && down_ok {
        pct
    } else if sl5.num > 0 && sl10.num > 0 && sl15.num > 0 && sl10.num * sl5.den < sl5.num
        * sl10.den && sl15.num * sl10.den < sl10.num * sl15.den && up_ok {
        pct
    } else {
        Ratio::zero()
    }
}

/// The sum of the series elements at indices `lo ..= hi - 1`.
pub open spec fn block_sum(s: Seq<i64>, lo: int, hi: int) -> int
    decreases hi - lo,
{
    if lo >= hi {
        0
    } else {
        block_sum(s, lo, hi - 1) + s[hi - 1]
    }
}

/// A block sum of `hi - lo` elements lies between `(hi - lo) * i64::MIN`
/// and `(hi - lo) * i64::MAX`.
pub proof fn lemma_block_sum_bound(s: Seq<i64>, lo: int, hi: int)
    requires
        0 <= lo <= hi <= s.len(),
    ensures
        (hi - lo) * i64::MIN <= block_sum(s, lo, hi) <= (hi - lo) * i64::MAX,
    decreases hi - lo,
{
    if lo < hi {
        lemma_block_sum_bound(s, lo, hi - 1);
        assert((hi - lo) * i64::MIN == (hi - 1 - lo) * i64::MIN + i64::MIN) by (nonlinear_arith);
        assert((hi - lo) * i64::MAX == (hi - 1 - lo) * i64::MAX + i64::MAX) by (nonlinear_arith);
    }
}

/// The `j`-th block average of the series under block width `n`: the mean of
/// the elements at indices `j * n ..` up to the next block or the series end.
pub open spec fn smooth_block(s: Seq<i64>, n: int, j: int) -> Ratio {
    let lo = j * n;
    let hi = if (j + 1) * n <= s.len() {
        (j + 1) * n
    } else {
        s.len() as int
    };
    Ratio { num: block_sum(s, lo, hi) as i128, den: (hi - lo) as i128 }
}

/// Block-average the series: every `num_elements_to_average` consecutive
/// points become one exact mean, and a shorter trailing block becomes the
/// mean of what is left. A width of zero yields the empty series.
pub fn smooth_series(series: &Vec<i64>, num_elements_to_average: u32) -> (r: Vec<Ratio>)
    ensures
        num_elements_to_average == 0 ==> r@.len() == 0,
        num_elements_to_average > 0 ==> ({
            let n = num_elements_to_average as int;
            &&& series@.len() == 0 ==> r@.len() == 0
            &&& series@.len() > 0 ==> (r@.len() - 1) * n < series@.len() <= r@.len() * n
            &&& forall|j: int| 0 <= j < r@.len() ==> #[trigger] r@[j] == smooth_block(series@, n, j)
        }),
{
    let mut r: Vec<Ratio> = Vec::new();
    if num_elements_to_average == 0 {
        return r;
    }
    let nn = num_elements_to_average as usize;
    let len = series.len();
    let mut lo: usize = 0;
    proof {
        assert(r@.len() * nn == 0) by (nonlinear_arith)
            requires
                r@.len() == 0,
        ;
    }
    while lo < len
        invariant
            0 < nn <= 0x100000000,
            len == series@.len(),
            lo <= len,
            lo == r@.len() * nn,
            forall|j: int|
                0 <= j < r@.len() ==> #[trigger] r@[j] == smooth_block(series@, nn as int, j),
        ensures
            lo == len || lo + nn > len,
            lo <= len,
            lo == r@.len() * nn,
            forall|j: int|
                0 <= j < r@.len() ==> #[trigger] r@[j] == smooth_block(series@, nn as int, j),
        decreases len - lo,
    {
        if len - lo < nn {
            break ;
        }
        let hi = lo + nn;
        let mut sum: i128 = 0;
        let mut idx = lo;
        while idx < hi
            invariant
                lo <= idx <= hi <= len,
                hi - lo == nn <= 0x100000000,
                len == series@.len(),
                sum == block_sum(series@, lo as int, idx as int),
            decreases hi - idx,
        {
            proof {
                lemma_block_sum_bound(series@, lo as int, idx as int);
                assert((idx - lo) * i64::MIN >= 0x100000000 * (i64::MIN as int)) by (nonlinear_arith)
                    requires
                        0 <= idx - lo <= 0x100000000,
                ;
                assert((idx - lo) * i64::MAX <= 0x100000000 * (i64::MAX as int)) by (nonlinear_arith)
                    requires
                        0 <= idx - lo <= 0x100000000,
                ;
            }
            sum = sum + series[idx] as i128;
            idx = idx + 1;
        }
        let ghost k = r@.len() as int;
        r.push(Ratio { num: sum, den: nn as i128 });
        proof {
            assert((k + 1) * nn == k * nn + nn) by (nonlinear_arith);
            assert(r@[k] == smooth_block(series@, nn as int, k)) by {
                assert(k * nn + nn <= series@.len());
            }
        }
        lo = hi;
    }
    if lo < len {
        let mut sum: i128 = 0;
        let mut idx = lo;
        while idx < len
            invariant
                lo <= idx <= len,
                len - lo < nn <= 0x100000000,
                len == series@.len(),
                sum == block_sum(series@, lo as int, idx as int),
            decreases len - idx,
        {
            proof {
                lemma_block_sum_bound(series@, lo as int, idx as int);
                assert((idx - lo) * i64::MIN >= 0x100000000 * (i64::MIN as int)) by (nonlinear_arith)
                    requires
                        0 <= idx - lo <= 0x100000000,
                ;
                assert((idx - lo) * i64::MAX <= 0x100000000 * (i64::MAX as int)) by (nonlinear_arith)
                    requires
                        0 <= idx - lo <= 0x100000000,
                ;
            }
            sum = sum + series[idx] as i128;
            idx = idx + 1;
        }
        let ghost k = r@.len() as int;
        r.push(Ratio { num: sum, den: (len - lo) as i128 });
        proof {
            assert((k + 1) * nn == k * nn + nn) by (nonlinear_arith);
            assert(r@[k] == smooth_block(series@, nn as int, k)) by {
                assert((k + 1) * nn > series@.len());
            }
        }
    }
    proof {
        if series@.len() == 0 {
            assert(r@.len() == 0) by (nonlinear_arith)
                requires
                    r@.len() * nn == 0,
                    nn >= 1,
            ;
        } else {
            assert((r@.len() - 1) * nn == r@.len() * nn - nn) by (nonlinear_arith);
        }
    }
    r
}

/// The season width: how many samples one period spans, `period / step`
/// truncated; zero (no splitting) unless both arguments are positive.
pub open spec fn pivot_of(minutes_per_period: int, minutes_per_step: int) -> int {
    if minutes_per_period <= 0 || minutes_per_step <= 0 {
        0
    } else {
        minutes_per_period / minutes_per_step
    }
}

/// Split the series into consecutive chunks of `minutes_per_period /
/// minutes_per_step` samples each, dropping a shorter trailing remainder.
/// The result is empty when that width is not at least one.
pub fn split_series_into_seasons(
    series: &Vec<i64>,
    minutes_per_period: i64,
    minutes_per_step: i64,
) -> (r: Vec<Vec<i64>>)
    ensures
        ({
            let p = pivot_of(minutes_per_period as int, minutes_per_step as int);
            &&& p < 1 ==> r@.len() == 0
            &&& p >= 1 ==> r@.len() * p <= series@.len() < (r@.len() + 1) * p
            &&& p >= 1 ==> forall|q: int|
                0 <= q < r@.len() ==> (#[trigger] r@[q])@ == series@.subrange(q * p, (q + 1) * p)
        }),
{
    let mut r: Vec<Vec<i64>> = Vec::new();
    if minutes_per_period <= 0 || minutes_per_step <= 0 {
        return r;
    }
    let pivot64 = minutes_per_period / minutes_per_step;
    if pivot64 < 1 {
        return r;
    }
    let len = series.len();
    if (pivot64 as u128) > (len as u128) {
        proof {
            let p = pivot_of(minutes_per_period as int, minutes_per_step as int);
            assert(r@.len() * p == 0 && (r@.len() + 1) * p == p) by (nonlinear_arith)
                requires
                    r@.len() == 0,
            ;
        }
        return r;
    }
    let pivot = pivot64 as usize;
    let mut lo: usize = 0;
    proof {
        assert(r@.len() * pivot == 0) by (nonlinear_arith)
            requires
                r@.len() == 0,
        ;
    }
    while len - lo >= pivot
        invariant
            0 < pivot <= len,
            pivot == pivot_of(minutes_per_period as int, minutes_per_step as int),
            len == series@.len(),
            lo <= len,
            lo == r@.len() * pivot,
            forall|q: int|
                0 <= q < r@.len() ==> (#[trigger] r@[q])@ == series@.subrange(
                    q * (pivot as int),
                    (q + 1) * (pivot as int),
                ),
        decreases len - lo,
    {
        let hi = lo + pivot;
        let mut w: Vec<i64> = Vec::new();
        let mut idx = lo;
        while idx < hi
            invariant
                lo <= idx <= hi <= len,
                len == series@.len(),
                w@ == series@.subrange(lo as int, idx as int),
            decreases hi - idx,
        {
            w.push(series[idx]);
            proof {
                assert(w@ =~= series@.subrange(lo as int, idx + 1));
            }
            idx = idx + 1;
        }
        let ghost k = r@.len() as int;
        r.push(w);
        proof {
            assert((k + 1) * pivot == k * pivot + pivot) by (nonlinear_arith);
        }
        lo = hi;
    }
    proof {
        assert((r@.len() + 1) * pivot == r@.len() * pivot + pivot) by (nonlinear_arith);
    }
    r
}

/// `d / 60000` with truncation toward zero, as Rust's integer division has it.
pub open spec fn millis_to_minutes(d: int) -> int {
    if d >= 0 {
        d / 60000
    } else {
        -((-d) / 60000)
    }
}

/// The period lengths in minutes, `time_diff * p` for each candidate period
/// `p`, keeping those products that fit in an `i64`.
pub open spec fn recurring_points(time_diff: int, periods: Seq<usize>, i: int) -> Seq<i64>
    decreases i,
{
    if i <= 0 {
        Seq::empty()
    } else {
        let prefix = recurring_points(time_diff, periods, i - 1);
        let mp = time_diff * periods[i - 1];
        if i64::MIN <= mp <= i64::MAX {
            prefix.push(mp as i64)
        } else {
            prefix
        }
    }
}

/// Turn candidate period lengths (in samples, as a seasonality search over
/// the series yields them) into recurring-event records: the sample spacing
/// in minutes is read off the first two timestamps (epoch milliseconds), and
/// each period is scaled by it. Needs at least two timestamps, else the
/// result is empty; a period whose scaled length does not fit in an `i64`
/// is dropped.
pub fn recurring_events_in_series(
    symbol: &str,
    timestamps: &Vec<i64>,
    periods: &Vec<usize>,
) -> (r: Vec<RecurringEventData>)
    ensures
        timestamps@.len() < 2 ==> r@.len() == 0,
        timestamps@.len() >= 2 ==> ({
            let td = millis_to_minutes(timestamps@[1] - timestamps@[0]);
            let pts = recurring_points(td, periods@, periods@.len() as int);
            &&& r@.len() == pts.len()
            &&& forall|j: int|
                0 <= j < pts.len() ==> (#[trigger] r@[j]).symbol@ == symbol@ && r@[j].minutes_period
                    == pts[j] && r@[j].time_scale == td
        }),
{
    let mut r: Vec<RecurringEventData> = Vec::new();
    if timestamps.len() < 2 {
        return r;
    }
    let d: i128 = timestamps[1] as i128 - timestamps[0] as i128;
    let mag: u128 = if d >= 0 {
        d as u128
    } else {
        (-d) as u128
    };
    let q = mag / 60000;
    let td: i128 = if d >= 0 {
        q as i128
    } else {
        -(q as i128)
    };
    proof {
        vstd::arithmetic::div_mod::lemma_div_is_ordered(
            mag as int,
            0x10000000000000000,
            60000,
        );
        assert(q <= 307445734561825);
        assert(td == millis_to_minutes(timestamps@[1] - timestamps@[0]));
    }
    let td64: i64 = td as i64;
    let n = periods.len();
    let mut i: usize = 0;
    while i < n
        invariant
            i <= n,
            n == periods@.len(),
            -307445734561826 <= td <= 307445734561826,
            td == millis_to_minutes(timestamps@[1] - timestamps@[0]),
            td64 == td,
            timestamps@.len() >= 2,
            ({
                let pts = recurring_points(td as int, periods@, i as int);
                &&& r@.len() == pts.len()
                &&& forall|j: int|
                    0 <= j < pts.len() ==> (#[trigger] r@[j]).symbol@ == symbol@
                        && r@[j].minutes_period == pts[j] && r@[j].time_scale == td
            }),
        decreases n - i,
    {
        let p = periods[i];
        proof {
            assert(i128::MIN <= td * p <= i128::MAX) by (nonlinear_arith)
                requires
                    -307445734561826 <= td <= 307445734561826,
                    0 <= p <= 0xffffffffffffffff,
            ;
        }
        let mp: i128 = td * (p as i128);
        if i64::MIN as i128 <= mp && mp <= i64::MAX as i128 {
            let ev = RecurringEventData {
                symbol: String::from_str(symbol),
                minutes_period: mp as i64,
                time_scale: td64,
            };
            r.push(ev);
        }
        i = i + 1;
    }
    r
}

/// View a list of vectors as a list of slices over the same elements.
pub fn vecs_to_slices<'a, T>(vecs: &'a [Vec<T>]) -> (r: Vec<&'a [T]>)
    ensures
        r@.len() == vecs@.len(),
        forall|i: int| 0 <= i < vecs@.len() ==> (#[trigger] r@[i])@ == vecs@[i]@,
{
    let mut r: Vec<&'a [T]> = Vec::new();
    let n = vecs.len();
    let mut i: usize = 0;
    while i < n
        invariant
            i <= n,
            n == vecs@.len(),
            r@.len() == i,
            forall|j: int| 0 <= j < i ==> (#[trigger] r@[j])@ == vecs@[j]@,
        decreases n - i,
    {
        r.push(vecs[i].as_slice());
        i = i + 1;
    }
    r
}

} // verus!
