//! Detected-event records and the append-only event store.

use vstd::prelude::*;

use crate::Ratio;

verus! {

/// One detected jump or drop: a single-step move of `percent` at `datetime`.
/// A positive `percent` is a jump, a negative one a drop.
#[derive(Debug)]
pub struct JumpEventData {
    /// Epoch seconds of the bar at which the move ended.
    pub datetime: i64,
    /// The symbol whose series moved.
    pub symbol: String,
    /// The signed percentage of the move, as an exact ratio.
    pub percent: Ratio,
}

/// One detected periodic component in a symbol's series.
#[derive(Debug)]
pub struct RecurringEventData {
    /// The symbol whose series recurs.
    pub symbol: String,
    /// The period, in minutes.
    pub minutes_period: i64,
    /// Minutes between two adjacent samples of the series searched.
    pub time_scale: i64,
}

impl Clone for JumpEventData {
    /// An exact copy.
    fn clone(&self) -> (r: Self)
        ensures
            r == *self,
    {
        JumpEventData {
            datetime: self.datetime,
            symbol: self.symbol.clone(),
            percent: self.percent,
        }
    }
}

impl Clone for RecurringEventData {
    /// An exact copy.
    fn clone(&self) -> (r: Self)
        ensures
            r == *self,
    {
        RecurringEventData {
            symbol: self.symbol.clone(),
            minutes_period: self.minutes_period,
            time_scale: self.time_scale,
        }
    }
}

/// The jump or drop events for `sym` among the first `i`, in stored order.
pub open spec fn jump_events_for(list: Seq<JumpEventData>, sym: Seq<char>, i: int) -> Seq<
    JumpEventData,
>
    decreases i,
{
    if i <= 0 {
        Seq::empty()
    } else {
        let prefix = jump_events_for(list, sym, i - 1);
        if list[i - 1].symbol@ == sym {
            prefix.push(list[i - 1])
        } else {
            prefix
        }
    }
}

/// The jump or drop events for every symbol but `sym` among the first `i`.
pub open spec fn jump_events_not_for(list: Seq<JumpEventData>, sym: Seq<char>, i: int) -> Seq<
    JumpEventData,
>
    decreases i,
{
    if i <= 0 {
        Seq::empty()
    } else {
        let prefix = jump_events_not_for(list, sym, i - 1);
        if list[i - 1].symbol@ != sym {
            prefix.push(list[i - 1])
        } else {
            prefix
        }
    }
}

/// The recurring events for `sym` among the first `i`, in stored order.
pub open spec fn recurring_events_for(list: Seq<RecurringEventData>, sym: Seq<char>, i: int) -> Seq<
    RecurringEventData,
>
    decreases i,
{
    if i <= 0 {
        Seq::empty()
    } else {
        let prefix = recurring_events_for(list, sym, i - 1);
        if list[i - 1].symbol@ == sym {
            prefix.push(list[i - 1])
        } else {
            prefix
        }
    }
}

/// The recurring events for every symbol but `sym` among the first `i`.
pub open spec fn recurring_events_not_for(
    list: Seq<RecurringEventData>,
    sym: Seq<char>,
    i: int,
) -> Seq<RecurringEventData>
    decreases i,
{
    if i <= 0 {
        Seq::empty()
    } else {
        let prefix = recurring_events_not_for(list, sym, i - 1);
        if list[i - 1].symbol@ != sym {
            prefix.push(list[i - 1])
        } else {
            prefix
        }
    }
}


/// Where a new event of timestamp `t` goes in an already sorted list: the
/// first index at or after `j` holding a strictly later event, else the end,
/// so that events with one timestamp keep their insertion order.
pub open spec fn event_insert_pos(s: Seq<JumpEventData>, t: i64, j: int) -> int
    decreases s.len() - j,
{
    if j < 0 || j >= s.len() {
        s.len() as int
    } else if s[j].datetime > t {
        j
    } else {
        event_insert_pos(s, t, j + 1)
    }
}

/// The first `i` events of the list, stably sorted ascending by timestamp.
pub open spec fn events_by_datetime(list: Seq<JumpEventData>, i: int) -> Seq<JumpEventData>
    decreases i,
{
    if i <= 0 {
        Seq::empty()
    } else {
        let prefix = events_by_datetime(list, i - 1);
        prefix.insert(event_insert_pos(prefix, list[i - 1].datetime, 0), list[i - 1])
    }
}

/// Ascending by timestamp.
pub open spec fn sorted_by_datetime(s: Seq<JumpEventData>) -> bool {
    forall|p: int, q: int|
        0 <= p < q < s.len() ==> (#[trigger] s[p]).datetime <= (#[trigger] s[q]).datetime
}

/// The insertion position is in range, everything before it is at or below
/// `t`, and the event there (if any) is strictly later.
proof fn lemma_event_insert_pos_props(s: Seq<JumpEventData>, t: i64, j: int)
    requires
        0 <= j <= s.len(),
    ensures
        ({
            let r = event_insert_pos(s, t, j);
            &&& j <= r <= s.len()
            &&& forall|q: int| j <= q < r ==> (#[trigger] s[q]).datetime <= t
            &&& r < s.len() ==> s[r].datetime > t
        }),
    decreases s.len() - j,
{
    if j < s.len() && !(s[j].datetime > t) {
        lemma_event_insert_pos_props(s, t, j + 1);
    }
}

/// The stable sort holds one event per input event and is sorted.
pub proof fn lemma_events_by_datetime_sorted(list: Seq<JumpEventData>, i: int)
    requires
        0 <= i <= list.len(),
    ensures
        events_by_datetime(list, i).len() == i,
        sorted_by_datetime(events_by_datetime(list, i)),
    decreases i,
{
    if i > 0 {
        lemma_events_by_datetime_sorted(list, i - 1);
        let prefix = events_by_datetime(list, i - 1);
        let e = list[i - 1];
        let p = event_insert_pos(prefix, e.datetime, 0);
        lemma_event_insert_pos_props(prefix, e.datetime, 0);
        let s = prefix.insert(p, e);
        assert forall|a: int, b: int| 0 <= a < b < s.len() implies (#[trigger] s[a]).datetime <= (
        #[trigger] s[b]).datetime by {
            if b < p {
            } else if a < p && b == p {
                assert(s[a] == prefix[a]);
            } else if a < p && b > p {
                assert(s[a] == prefix[a] && s[b] == prefix[b - 1]);
            } else if a == p && b > p {
                assert(s[b] == prefix[b - 1]);
                assert(prefix[p].datetime <= prefix[b - 1].datetime);
            } else if a > p {
                assert(s[a] == prefix[a - 1] && s[b] == prefix[b - 1]);
            }
        }
    }
}

/// The event store: append-only tables of detected jump, drop and recurring
/// events. A jump event may later be superseded only by an explicit
/// delete-and-reinsert maintenance step.
pub struct EventStore {
    jump_events: Vec<JumpEventData>,
    drop_events: Vec<JumpEventData>,
    recurring_events: Vec<RecurringEventData>,
}

impl EventStore {
    /// The stored jump events, in insertion order.
    pub closed spec fn jumps(self) -> Seq<JumpEventData> {
        self.jump_events@
    }

    /// The stored drop events, in insertion order.
    pub closed spec fn drops(self) -> Seq<JumpEventData> {
        self.drop_events@
    }

    /// The stored recurring events, in insertion order.
    pub closed spec fn recurrings(self) -> Seq<RecurringEventData> {
        self.recurring_events@
    }

    /// An empty store.
    pub fn new() -> (r: EventStore)
        ensures
            r.jumps().len() == 0,
            r.drops().len() == 0,
            r.recurrings().len() == 0,
    {
        EventStore { jump_events: Vec::new(), drop_events: Vec::new(), recurring_events: Vec::new() }
    }

    /// Append the detected jump events, in order.
    pub fn insert_jump_events(&mut self, series: &Vec<JumpEventData>)
        ensures
            final(self).jumps() == old(self).jumps() + series@,
            final(self).drops() == old(self).drops(),
            final(self).recurrings() == old(self).recurrings(),
    {
        let n = series.len();
        let mut i: usize = 0;
        while i < n
            invariant
                i <= n,
                n == series@.len(),
                self.jumps() =~= old(self).jumps() + series@.take(i as int),
                self.drops() == old(self).drops(),
                self.recurrings() == old(self).recurrings(),
            decreases n - i,
        {
            self.jump_events.push(series[i].clone());
            proof {
                assert(self.jumps() =~= old(self).jumps() + series@.take(i + 1));
            }
            i = i + 1;
        }
        proof {
            assert(old(self).jumps() + series@.take(n as int) =~= old(self).jumps() + series@);
        }
    }

    /// The jump events for the symbol, ascending by timestamp; events with
    /// one timestamp keep their insertion order.
    pub fn jump_events(&self, symbol: &str) -> (r: Vec<JumpEventData>)
        ensures
            ({
                let f = jump_events_for(self.jumps(), symbol@, self.jumps().len() as int);
                &&& r@ == events_by_datetime(f, f.len() as int)
                &&& sorted_by_datetime(r@)
            }),
    {
        let n = self.jump_events.len();
        let mut filtered: Vec<JumpEventData> = Vec::new();
        let mut i: usize = 0;
        while i < n
            invariant
                i <= n,
                n == self.jumps().len(),
                filtered@ == jump_events_for(self.jumps(), symbol@, i as int),
            decreases n - i,
        {
            if crate::str_eq(self.jump_events[i].symbol.as_str(), symbol) {
                filtered.push(self.jump_events[i].clone());
            }
            i = i + 1;
        }
        sort_events_by_datetime(&filtered)
    }

    /// How many jump events the symbol has.
    pub fn jump_events_count(&self, symbol: &str) -> (r: usize)
        ensures
            r == jump_events_for(self.jumps(), symbol@, self.jumps().len() as int).len(),
    {
        let n = self.jump_events.len();
        let mut count: usize = 0;
        let mut i: usize = 0;
        while i < n
            invariant
                i <= n,
                n == self.jumps().len(),
                count == jump_events_for(self.jumps(), symbol@, i as int).len(),
                count <= i,
            decreases n - i,
        {
            if crate::str_eq(self.jump_events[i].symbol.as_str(), symbol) {
                count = count + 1;
            }
            i = i + 1;
        }
        count
    }

    /// Remove every jump event of the symbol.
    pub fn delete_jump_events(&mut self, symbol: &str)
        ensures
            final(self).jumps() == jump_events_not_for(
                old(self).jumps(),
                symbol@,
                old(self).jumps().len() as int,
            ),
            final(self).drops() == old(self).drops(),
            final(self).recurrings() == old(self).recurrings(),
    {
        let n = self.jump_events.len();
        let mut kept: Vec<JumpEventData> = Vec::new();
        let mut i: usize = 0;
        while i < n
            invariant
                i <= n,
                n == self.jumps().len(),
                kept@ == jump_events_not_for(self.jumps(), symbol@, i as int),
            decreases n - i,
        {
            if !crate::str_eq(self.jump_events[i].symbol.as_str(), symbol) {
                kept.push(self.jump_events[i].clone());
            }
            i = i + 1;
        }
        self.jump_events = kept;
    }

    /// Replace the symbol's jump events: delete them, then append the new
    /// ones. The batch names the symbol in its first event.
    pub fn update_jump_events(&mut self, series: &Vec<JumpEventData>)
        requires
            series@.len() > 0,
        ensures
            final(self).jumps() == jump_events_not_for(
                old(self).jumps(),
                series@[0].symbol@,
                old(self).jumps().len() as int,
            ) + series@,
            final(self).drops() == old(self).drops(),
            final(self).recurrings() == old(self).recurrings(),
    {
        let sym = series[0].symbol.clone();
        self.delete_jump_events(sym.as_str());
        self.insert_jump_events(series);
    }

    /// Append the detected drop events, in order.
    pub fn insert_drop_events(&mut self, series: &Vec<JumpEventData>)
        ensures
            final(self).drops() == old(self).drops() + series@,
            final(self).jumps() == old(self).jumps(),
            final(self).recurrings() == old(self).recurrings(),
    {
        let n = series.len();
        let mut i: usize = 0;
        while i < n
            invariant
                i <= n,
                n == series@.len(),
                self.drops() =~= old(self).drops() + series@.take(i as int),
                self.jumps() == old(self).jumps(),
                self.recurrings() == old(self).recurrings(),
            decreases n - i,
        {
            self.drop_events.push(series[i].clone());
            proof {
                assert(self.drops() =~= old(self).drops() + series@.take(i + 1));
            }
            i = i + 1;
        }
        proof {
            assert(old(self).drops() + series@.take(n as int) =~= old(self).drops() + series@);
        }
    }

    /// The drop events for the symbol, ascending by timestamp; events with
    /// one timestamp keep their insertion order.
    pub fn drop_events(&self, symbol: &str) -> (r: Vec<JumpEventData>)
        ensures
            ({
                let f = jump_events_for(self.drops(), symbol@, self.drops().len() as int);
                &&& r@ == events_by_datetime(f, f.len() as int)
                &&& sorted_by_datetime(r@)
            }),
    {
        let n = self.drop_events.len();
        let mut filtered: Vec<JumpEventData> = Vec::new();
        let mut i: usize = 0;
        while i < n
            invariant
                i <= n,
                n == self.drops().len(),
                filtered@ == jump_events_for(self.drops(), symbol@, i as int),
            decreases n - i,
        {
            if crate::str_eq(self.drop_events[i].symbol.as_str(), symbol) {
                filtered.push(self.drop_events[i].clone());
            }
            i = i + 1;
        }
        sort_events_by_datetime(&filtered)
    }

    /// How many drop events the symbol has.
    pub fn drop_events_count(&self, symbol: &str) -> (r: usize)
        ensures
            r == jump_events_for(self.drops(), symbol@, self.drops().len() as int).len(),
    {
        let n = self.drop_events.len();
        let mut count: usize = 0;
        let mut i: usize = 0;
        while i < n
            invariant
                i <= n,
                n == self.drops().len(),
                count == jump_events_for(self.drops(), symbol@, i as int).len(),
                count <= i,
            decreases n - i,
        {
            if crate::str_eq(self.drop_events[i].symbol.as_str(), symbol) {
                count = count + 1;
            }
            i = i + 1;
        }
        count
    }

    /// Remove every drop event of the symbol.
    pub fn delete_drop_events(&mut self, symbol: &str)
        ensures
            final(self).drops() == jump_events_not_for(
                old(self).drops(),
                symbol@,
                old(self).drops().len() as int,
            ),
            final(self).jumps() == old(self).jumps(),
            final(self).recurrings() == old(self).recurrings(),
    {
        let n = self.drop_events.len();
        let mut kept: Vec<JumpEventData> = Vec::new();
        let mut i: usize = 0;
        while i < n
            invariant
                i <= n,
                n == self.drops().len(),
                kept@ == jump_events_not_for(self.drops(), symbol@, i as int),
            decreases n - i,
        {
            if !crate::str_eq(self.drop_events[i].symbol.as_str(), symbol) {
                kept.push(self.drop_events[i].clone());
            }
            i = i + 1;
        }
        self.drop_events = kept;
    }

    /// Replace the symbol's drop events: delete them, then append the new
    /// ones. The batch names the symbol in its first event.
    pub fn update_drop_events(&mut self, series: &Vec<JumpEventData>)
        requires
            series@.len() > 0,
        ensures
            final(self).drops() == jump_events_not_for(
                old(self).drops(),
                series@[0].symbol@,
                old(self).drops().len() as int,
            ) + series@,
            final(self).jumps() == old(self).jumps(),
            final(self).recurrings() == old(self).recurrings(),
    {
        let sym = series[0].symbol.clone();
        self.delete_drop_events(sym.as_str());
        self.insert_drop_events(series);
    }

    /// Append the detected recurring events, in order.
    pub fn insert_recurring_events(&mut self, series: &Vec<RecurringEventData>)
        ensures
            final(self).recurrings() == old(self).recurrings() + series@,
            final(self).jumps() == old(self).jumps(),
            final(self).drops() == old(self).drops(),
    {
        let n = series.len();
        let mut i: usize = 0;
        while i < n
            invariant
                i <= n,
                n == series@.len(),
                self.recurrings() =~= old(self).recurrings() + series@.take(i as int),
                self.jumps() == old(self).jumps(),
                self.drops() == old(self).drops(),
            decreases n - i,
        {
            self.recurring_events.push(series[i].clone());
            proof {
                assert(self.recurrings() =~= old(self).recurrings() + series@.take(i + 1));
            }
            i = i + 1;
        }
        proof {
            assert(old(self).recurrings() + series@.take(n as int) =~= old(self).recurrings()
                + series@);
        }
    }

    /// The recurring events for the symbol, in insertion order: a recurring
    /// event carries no timestamp to order by.
    pub fn recurring_events(&self, symbol: &str) -> (r: Vec<RecurringEventData>)
        ensures
            r@ == recurring_events_for(self.recurrings(), symbol@, self.recurrings().len() as int),
    {
        let n = self.recurring_events.len();
        let mut r: Vec<RecurringEventData> = Vec::new();
        let mut i: usize = 0;
        while i < n
            invariant
                i <= n,
                n == self.recurrings().len(),
                r@ == recurring_events_for(self.recurrings(), symbol@, i as int),
            decreases n - i,
        {
            if crate::str_eq(self.recurring_events[i].symbol.as_str(), symbol) {
                r.push(self.recurring_events[i].clone());
            }
            i = i + 1;
        }
        r
    }

    /// How many recurring events the symbol has.
    pub fn recurring_events_count(&self, symbol: &str) -> (r: usize)
        ensures
            r == recurring_events_for(
                self.recurrings(),
                symbol@,
                self.recurrings().len() as int,
            ).len(),
    {
        let n = self.recurring_events.len();
        let mut count: usize = 0;
        let mut i: usize = 0;
        while i < n
            invariant
                i <= n,
                n == self.recurrings().len(),
                count == recurring_events_for(self.recurrings(), symbol@, i as int).len(),
                count <= i,
            decreases n - i,
        {
            if crate::str_eq(self.recurring_events[i].symbol.as_str(), symbol) {
                count = count + 1;
            }
            i = i + 1;
        }
        count
    }

    /// Remove every recurring event of the symbol.
    pub fn delete_recurring_events(&mut self, symbol: &str)
        ensures
            final(self).recurrings() == recurring_events_not_for(
                old(self).recurrings(),
                symbol@,
                old(self).recurrings().len() as int,
            ),
            final(self).jumps() == old(self).jumps(),
            final(self).drops() == old(self).drops(),
    {
        let n = self.recurring_events.len();
        let mut kept: Vec<RecurringEventData> = Vec::new();
        let mut i: usize = 0;
        while i < n
            invariant
                i <= n,
                n == self.recurrings().len(),
                kept@ == recurring_events_not_for(self.recurrings(), symbol@, i as int),
            decreases n - i,
        {
            if !crate::str_eq(self.recurring_events[i].symbol.as_str(), symbol) {
                kept.push(self.recurring_events[i].clone());
            }
            i = i + 1;
        }
        self.recurring_events = kept;
    }

    /// Replace the symbol's recurring events: delete them, then append the
    /// new ones. The batch names the symbol in its first event.
    pub fn update_recurring_events(&mut self, series: &Vec<RecurringEventData>)
        requires
            series@.len() > 0,
        ensures
            final(self).recurrings() == recurring_events_not_for(
                old(self).recurrings(),
                series@[0].symbol@,
                old(self).recurrings().len() as int,
            ) + series@,
            final(self).jumps() == old(self).jumps(),
            final(self).drops() == old(self).drops(),
    {
        let sym = series[0].symbol.clone();
        self.delete_recurring_events(sym.as_str());
        self.insert_recurring_events(series);
    }
}

/// Stably sort events ascending by timestamp.
fn sort_events_by_datetime(v: &Vec<JumpEventData>) -> (r: Vec<JumpEventData>)
    ensures
        r@ == events_by_datetime(v@, v@.len() as int),
        sorted_by_datetime(r@),
{
    let m = v.len();
    let mut r: Vec<JumpEventData> = Vec::new();
    let mut k: usize = 0;
    while k < m
        invariant
            k <= m,
            m == v@.len(),
            r@ == events_by_datetime(v@, k as int),
            r@.len() == k,
        decreases m - k,
    {
        let t = v[k].datetime;
        let mut pos: usize = 0;
        while pos < r.len() && r[pos].datetime <= t
            invariant
                pos <= r@.len(),
                event_insert_pos(r@, t, 0) == event_insert_pos(r@, t, pos as int),
            decreases r@.len() - pos,
        {
            pos = pos + 1;
        }
        r.insert(pos, v[k].clone());
        k = k + 1;
    }
    proof {
        lemma_events_by_datetime_sorted(v@, m as int);
    }
    r
}

impl EventStore {
    /// How many jump events the whole store holds, a mark for
    /// [`Self::jump_events_since`].
    pub fn jump_events_total(&self) -> (r: usize)
        ensures
            r == self.jumps().len(),
    {
        self.jump_events.len()
    }

    /// The jump events appended since the given mark, in insertion order:
    /// what a durable mirror must still write through.
    pub fn jump_events_since(&self, mark: usize) -> (r: Vec<JumpEventData>)
        ensures
            mark <= self.jumps().len() ==> r@ == self.jumps().skip(mark as int),
            mark > self.jumps().len() ==> r@.len() == 0,
    {
        let n = self.jump_events.len();
        let mut r: Vec<JumpEventData> = Vec::new();
        if mark > n {
            return r;
        }
        let mut i: usize = mark;
        while i < n
            invariant
                mark <= i <= n,
                n == self.jumps().len(),
                r@.len() == i - mark,
                forall|j: int| 0 <= j < r@.len() ==> #[trigger] r@[j] == self.jumps()[mark + j],
            decreases n - i,
        {
            r.push(self.jump_events[i].clone());
            i = i + 1;
        }
        proof {
            assert(r@ =~= self.jumps().skip(mark as int));
        }
        r
    }

    /// How many recurring events the whole store holds, a mark for
    /// [`Self::recurring_events_since`].
    pub fn recurring_events_total(&self) -> (r: usize)
        ensures
            r == self.recurrings().len(),
    {
        self.recurring_events.len()
    }

    /// The recurring events appended since the given mark, in insertion
    /// order: what a durable mirror must still write through.
    pub fn recurring_events_since(&self, mark: usize) -> (r: Vec<RecurringEventData>)
        ensures
            mark <= self.recurrings().len() ==> r@ == self.recurrings().skip(mark as int),
            mark > self.recurrings().len() ==> r@.len() == 0,
    {
        let n = self.recurring_events.len();
        let mut r: Vec<RecurringEventData> = Vec::new();
        if mark > n {
            return r;
        }
        let mut i: usize = mark;
        while i < n
            invariant
                mark <= i <= n,
                n == self.recurrings().len(),
                r@.len() == i - mark,
                forall|j: int| 0 <= j < r@.len() ==> #[trigger] r@[j] == self.recurrings()[mark + j],
            decreases n - i,
        {
            r.push(self.recurring_events[i].clone());
            i = i + 1;
        }
        proof {
            assert(r@ =~= self.recurrings().skip(mark as int));
        }
        r
    }
}

} // verus!
