//! Symbol and exchange reference data, and the resolution of a symbol to
//! its metadata.
//!
//! Resolution picks one equity record in a fixed fallback order: the record
//! on the preferred exchange, else the first record in EUR, else the first
//! in USD, else the first record at all; with no record the metadata carries
//! only the requested symbol. The chosen record's exchange code then selects
//! the exchange whose title and timezone are merged in.

use vstd::prelude::*;

use crate::gateway::PipelineError;
use crate::{chars_lt, is_substring, lemma_chars_lt_irrefl, lemma_chars_lt_trans, str_contains, str_eq, str_lt};

verus! {

/// One equity reference record, as an upstream symbol catalog carries it.
#[derive(Debug)]
pub struct StockEquity {
    /// Stock symbol.
    pub symbol: String,
    /// Full name.
    pub name: String,
    /// Currency code.
    pub currency: String,
    /// Exchange title.
    pub exchange: String,
    /// Exchange code.
    pub mic_code: String,
    /// Country.
    pub country: String,
    /// Asset type.
    pub asset_type: String,
    /// FIGI style code.
    pub figi_code: String,
    /// CFI style code.
    pub cfi_code: String,
    /// ISIN code.
    pub isin: String,
    /// CUSIP code.
    pub cusip: String,
}

impl Clone for StockEquity {
    /// An exact copy.
    fn clone(&self) -> (r: Self)
        ensures
            r == *self,
    {
        StockEquity {
            symbol: self.symbol.clone(),
            name: self.name.clone(),
            currency: self.currency.clone(),
            exchange: self.exchange.clone(),
            mic_code: self.mic_code.clone(),
            country: self.country.clone(),
            asset_type: self.asset_type.clone(),
            figi_code: self.figi_code.clone(),
            cfi_code: self.cfi_code.clone(),
            isin: self.isin.clone(),
            cusip: self.cusip.clone(),
        }
    }
}

impl Default for StockEquity {
    /// A record with every field empty.
    fn default() -> (r: StockEquity)
        ensures
            r.symbol@ == Seq::<char>::empty(),
            r.name@ == Seq::<char>::empty(),
            r.currency@ == Seq::<char>::empty(),
            r.exchange@ == Seq::<char>::empty(),
            r.mic_code@ == Seq::<char>::empty(),
            r.country@ == Seq::<char>::empty(),
            r.asset_type@ == Seq::<char>::empty(),
            r.figi_code@ == Seq::<char>::empty(),
            r.cfi_code@ == Seq::<char>::empty(),
            r.isin@ == Seq::<char>::empty(),
            r.cusip@ == Seq::<char>::empty(),
    {
        StockEquity {
            symbol: String::new(),
            name: String::new(),
            currency: String::new(),
            exchange: String::new(),
            mic_code: String::new(),
            country: String::new(),
            asset_type: String::new(),
            figi_code: String::new(),
            cfi_code: String::new(),
            isin: String::new(),
            cusip: String::new(),
        }
    }
}

/// A page of equity records as an upstream catalog returns them.
#[derive(Debug)]
pub struct Equities {
    /// The records.
    pub data: Vec<StockEquity>,
    /// How many records the catalog reports.
    pub count: u64,
    /// The catalog's status word.
    pub status: String,
}

/// One exchange reference record.
#[derive(Debug)]
pub struct Exchange {
    /// Title.
    pub title: String,
    /// Name.
    pub name: String,
    /// Code.
    pub code: String,
    /// Country.
    pub country: String,
    /// Timezone.
    pub timezone: String,
}

impl Clone for Exchange {
    /// An exact copy.
    fn clone(&self) -> (r: Self)
        ensures
            r == *self,
    {
        Exchange {
            title: self.title.clone(),
            name: self.name.clone(),
            code: self.code.clone(),
            country: self.country.clone(),
            timezone: self.timezone.clone(),
        }
    }
}

impl Default for Exchange {
    /// A record with every field empty.
    fn default() -> (r: Exchange)
        ensures
            r.title@ == Seq::<char>::empty(),
            r.name@ == Seq::<char>::empty(),
            r.code@ == Seq::<char>::empty(),
            r.country@ == Seq::<char>::empty(),
            r.timezone@ == Seq::<char>::empty(),
    {
        Exchange {
            title: String::new(),
            name: String::new(),
            code: String::new(),
            country: String::new(),
            timezone: String::new(),
        }
    }
}

/// A page of exchange records as an upstream catalog returns them.
#[derive(Debug)]
pub struct Exchanges {
    /// The records.
    pub data: Vec<Exchange>,
    /// The catalog's status word.
    pub status: String,
}

/// One alias record: a symbol under an alternate spelling, with the
/// description that links it to an equity record.
#[derive(Debug)]
pub struct YahooSymbol {
    /// The alternate spelling.
    pub ysymbol: String,
    /// Full name, matched against equity names.
    pub name: String,
}

impl Clone for YahooSymbol {
    /// An exact copy.
    fn clone(&self) -> (r: Self)
        ensures
            r == *self,
    {
        YahooSymbol { ysymbol: self.ysymbol.clone(), name: self.name.clone() }
    }
}

impl Default for YahooSymbol {
    /// A record with every field empty.
    fn default() -> (r: YahooSymbol)
        ensures
            r.ysymbol@ == Seq::<char>::empty(),
            r.name@ == Seq::<char>::empty(),
    {
        YahooSymbol { ysymbol: String::new(), name: String::new() }
    }
}

/// A page of alias records.
#[derive(Debug)]
pub struct YahooSymbols {
    /// The records.
    pub data: Vec<YahooSymbol>,
    /// How many records the catalog reports.
    pub count: u64,
    /// The catalog's status word.
    pub status: String,
}

/// Resolved identity of a symbol: the chosen equity record's currency,
/// exchange and type, and the query window for series reads, as epoch
/// seconds.
#[derive(Debug)]
pub struct MetaData {
    /// The requested symbol.
    pub symbol: String,
    /// Currency of the chosen record; empty when unresolved.
    pub currency: String,
    /// Timezone of the chosen exchange; empty when unresolved.
    pub exchange_timezone: String,
    /// Title of the chosen exchange; empty when unresolved.
    pub exchange: String,
    /// Code of the chosen exchange; empty when unresolved.
    pub exchange_code: String,
    /// Asset type of the chosen record; empty when unresolved.
    pub asset_type: String,
    /// Start of the query window, epoch seconds.
    pub start_date: i64,
    /// End of the query window, epoch seconds.
    pub end_date: i64,
}

impl Clone for MetaData {
    /// An exact copy.
    fn clone(&self) -> (r: Self)
        ensures
            r == *self,
    {
        MetaData {
            symbol: self.symbol.clone(),
            currency: self.currency.clone(),
            exchange_timezone: self.exchange_timezone.clone(),
            exchange: self.exchange.clone(),
            exchange_code: self.exchange_code.clone(),
            asset_type: self.asset_type.clone(),
            start_date: self.start_date,
            end_date: self.end_date,
        }
    }
}

impl Default for MetaData {
    /// Metadata with every field empty and a zero query window.
    fn default() -> (r: MetaData)
        ensures
            r.symbol@ == Seq::<char>::empty(),
            r.currency@ == Seq::<char>::empty(),
            r.exchange_timezone@ == Seq::<char>::empty(),
            r.exchange@ == Seq::<char>::empty(),
            r.exchange_code@ == Seq::<char>::empty(),
            r.asset_type@ == Seq::<char>::empty(),
            r.start_date == 0,
            r.end_date == 0,
    {
        MetaData {
            symbol: String::new(),
            currency: String::new(),
            exchange_timezone: String::new(),
            exchange: String::new(),
            exchange_code: String::new(),
            asset_type: String::new(),
            start_date: 0,
            end_date: 0,
        }
    }
}

/// The equity records whose symbol is `sym`, among the first `i`, in order.
pub open spec fn equities_for(stocks: Seq<StockEquity>, sym: Seq<char>, i: int) -> Seq<StockEquity>
    decreases i,
{
    if i <= 0 {
        Seq::empty()
    } else {
        let prefix = equities_for(stocks, sym, i - 1);
        if stocks[i - 1].symbol@ == sym {
            prefix.push(stocks[i - 1])
        } else {
            prefix
        }
    }
}

/// With no record for `sym` among the first `i`, the filtered list is empty.
pub proof fn lemma_equities_for_empty(stocks: Seq<StockEquity>, sym: Seq<char>, i: int)
    requires
        i <= stocks.len(),
        forall|j: int| 0 <= j < i ==> (#[trigger] stocks[j]).symbol@ != sym,
    ensures
        equities_for(stocks, sym, i).len() == 0,
    decreases i,
{
    if i > 0 {
        lemma_equities_for_empty(stocks, sym, i - 1);
    }
}

/// The first index at or after `j` whose exchange record has code `code`,
/// or -1.
pub open spec fn exchange_index_from(list: Seq<Exchange>, code: Seq<char>, j: int) -> int
    decreases list.len() - j,
{
    if j < 0 || j >= list.len() {
        -1
    } else if list[j].code@ == code {
        j
    } else {
        exchange_index_from(list, code, j + 1)
    }
}

/// The first index at or after `j` whose equity record has exchange code
/// `code`, or -1.
pub open spec fn mic_index_from(list: Seq<StockEquity>, code: Seq<char>, j: int) -> int
    decreases list.len() - j,
{
    if j < 0 || j >= list.len() {
        -1
    } else if list[j].mic_code@ == code {
        j
    } else {
        mic_index_from(list, code, j + 1)
    }
}

/// The first index at or after `j` whose equity record has currency `cur`,
/// or -1.
pub open spec fn currency_index_from(list: Seq<StockEquity>, cur: Seq<char>, j: int) -> int
    decreases list.len() - j,
{
    if j < 0 || j >= list.len() {
        -1
    } else if list[j].currency@ == cur {
        j
    } else {
        currency_index_from(list, cur, j + 1)
    }
}

/// The index of the record that the fallback order picks from the records
/// for one symbol: the first on the preferred exchange, else the first in
/// EUR, else the first in USD, else the first record; -1 with no record.
pub open spec fn chosen_equity(list: Seq<StockEquity>, code: Seq<char>) -> int {
    if mic_index_from(list, code, 0) >= 0 {
        mic_index_from(list, code, 0)
    } else if currency_index_from(list, "EUR"@, 0) >= 0 {
        currency_index_from(list, "EUR"@, 0)
    } else if currency_index_from(list, "USD"@, 0) >= 0 {
        currency_index_from(list, "USD"@, 0)
    } else if list.len() > 0 {
        0
    } else {
        -1
    }
}

/// A found index lies in range and is the first match; -1 means no match.
pub proof fn lemma_currency_index_spec(list: Seq<StockEquity>, cur: Seq<char>, j: int)
    requires
        0 <= j <= list.len(),
    ensures
        ({
            let r = currency_index_from(list, cur, j);
            &&& r >= 0 ==> j <= r < list.len() && list[r].currency@ == cur && forall|q: int|
                j <= q < r ==> (#[trigger] list[q]).currency@ != cur
            &&& r < 0 ==> forall|q: int| j <= q < list.len() ==> (#[trigger] list[q]).currency@
                != cur
        }),
    decreases list.len() - j,
{
    if j < list.len() && list[j].currency@ != cur {
        lemma_currency_index_spec(list, cur, j + 1);
    }
}

/// The chosen record with records only in GBP and EUR and none on the
/// preferred exchange is the first EUR record: EUR wins over any other
/// currency once the preferred exchange is missing. With no EUR and no USD
/// record either, the first record of the list is chosen.
pub proof fn lemma_metadata_fallback_prefers_eur(list: Seq<StockEquity>, code: Seq<char>)
    requires
        forall|q: int| 0 <= q < list.len() ==> (#[trigger] list[q]).mic_code@ != code,
        exists|q: int| 0 <= q < list.len() && (#[trigger] list[q]).currency@ == "EUR"@,
    ensures
        ({
            let c = chosen_equity(list, code);
            &&& 0 <= c < list.len()
            &&& list[c].currency@ == "EUR"@
            &&& forall|q: int| 0 <= q < c ==> (#[trigger] list[q]).currency@ != "EUR"@
        }),
{
    lemma_mic_index_none(list, code, 0);
    lemma_currency_index_spec(list, "EUR"@, 0);
}


/// A found exchange-code index lies in range.
pub proof fn lemma_mic_index_in_range(list: Seq<StockEquity>, code: Seq<char>, j: int)
    requires
        0 <= j <= list.len(),
    ensures
        ({
            let r = mic_index_from(list, code, j);
            r >= 0 ==> j <= r < list.len() && list[r].mic_code@ == code
        }),
    decreases list.len() - j,
{
    if j < list.len() && list[j].mic_code@ != code {
        lemma_mic_index_in_range(list, code, j + 1);
    }
}

/// With no record on `code` anywhere, the search reports -1.
pub proof fn lemma_mic_index_none(list: Seq<StockEquity>, code: Seq<char>, j: int)
    requires
        0 <= j <= list.len(),
        forall|q: int| 0 <= q < list.len() ==> (#[trigger] list[q]).mic_code@ != code,
    ensures
        mic_index_from(list, code, j) < 0,
    decreases list.len() - j,
{
    if j < list.len() {
        lemma_mic_index_none(list, code, j + 1);
    }
}

/// The first index at or after `j` of an active symbol that contains
/// `needle` as a substring, or -1.
pub open spec fn active_match_from(active: Seq<String>, needle: Seq<char>, j: int) -> int
    decreases active.len() - j,
{
    if j < 0 || j >= active.len() {
        -1
    } else if is_substring(active[j]@, needle) {
        j
    } else {
        active_match_from(active, needle, j + 1)
    }
}

/// The first index at or after `j` of an alias record for `sym`, or -1.
pub open spec fn alias_index_from(yahoos: Seq<YahooSymbol>, sym: Seq<char>, j: int) -> int
    decreases yahoos.len() - j,
{
    if j < 0 || j >= yahoos.len() {
        -1
    } else if yahoos[j].ysymbol@ == sym {
        j
    } else {
        alias_index_from(yahoos, sym, j + 1)
    }
}

/// The first index at or after `j` of an equity record named `name`, or -1.
pub open spec fn name_index_from(list: Seq<StockEquity>, name: Seq<char>, j: int) -> int
    decreases list.len() - j,
{
    if j < 0 || j >= list.len() {
        -1
    } else if list[j].name@ == name {
        j
    } else {
        name_index_from(list, name, j + 1)
    }
}

/// What the alias lookup resolves `sym` to: the first active symbol that
/// contains `sym`; else, through the alias table's description, the symbol
/// of the first equity record with that name; else `sym` itself.
pub open spec fn matched_alias(
    active: Seq<String>,
    yahoos: Seq<YahooSymbol>,
    stocks: Seq<StockEquity>,
    sym: Seq<char>,
) -> Seq<char> {
    let a = active_match_from(active, sym, 0);
    if a >= 0 {
        active[a]@
    } else {
        let y = alias_index_from(yahoos, sym, 0);
        if y >= 0 && yahoos[y].name@.len() > 0 {
            let s = name_index_from(stocks, yahoos[y].name@, 0);
            if s >= 0 {
                stocks[s].symbol@
            } else {
                sym
            }
        } else {
            sym
        }
    }
}

/// The equity records that a symbol query yields: the records carrying the
/// requested symbol when any does, else the records carrying the spelling
/// that the alias lookup resolves the symbol to. An unresolvable symbol
/// yields no records.
pub open spec fn equity_records(
    stocks: Seq<StockEquity>,
    active: Seq<String>,
    yahoos: Seq<YahooSymbol>,
    sym: Seq<char>,
) -> Seq<StockEquity> {
    if exists|i: int| 0 <= i < stocks.len() && (#[trigger] stocks[i]).symbol@ == sym {
        equities_for(stocks, sym, stocks.len() as int)
    } else {
        equities_for(stocks, matched_alias(active, yahoos, stocks, sym), stocks.len() as int)
    }
}

/// How often `sym` occurs among the first `i` entries of the list.
pub open spec fn count_symbol(list: Seq<String>, sym: Seq<char>, i: int) -> int
    decreases i,
{
    if i <= 0 {
        0
    } else {
        count_symbol(list, sym, i - 1) + if list[i - 1]@ == sym {
            1int
        } else {
            0int
        }
    }
}

/// `sym` occurs somewhere in the list.
pub open spec fn contains_symbol(list: Seq<String>, sym: Seq<char>) -> bool {
    exists|i: int| 0 <= i < list.len() && (#[trigger] list[i])@ == sym
}

/// The active set after adding the first `i` candidates, skipping each one
/// already present.
pub open spec fn added_unique(cur: Seq<String>, add: Seq<String>, i: int) -> Seq<String>
    decreases i,
{
    if i <= 0 {
        cur
    } else {
        let prefix = added_unique(cur, add, i - 1);
        if contains_symbol(prefix, add[i - 1]@) {
            prefix
        } else {
            prefix.push(add[i - 1])
        }
    }
}


/// The active set without the entries for `sym`, among the first `i`.
pub open spec fn without_symbol(cur: Seq<String>, sym: Seq<char>, i: int) -> Seq<String>
    decreases i,
{
    if i <= 0 {
        Seq::empty()
    } else {
        let prefix = without_symbol(cur, sym, i - 1);
        if cur[i - 1]@ != sym {
            prefix.push(cur[i - 1])
        } else {
            prefix
        }
    }
}

/// The active set after deleting the first `i` named symbols in turn.
pub open spec fn deleted_symbols(cur: Seq<String>, del: Seq<String>, i: int) -> Seq<String>
    decreases i,
{
    if i <= 0 {
        cur
    } else {
        let prefix = deleted_symbols(cur, del, i - 1);
        without_symbol(prefix, del[i - 1]@, prefix.len() as int)
    }
}


/// Filtering a duplicate-free list keeps it duplicate-free, and every kept
/// entry comes from the list.
pub proof fn lemma_without_symbol_distinct(cur: Seq<String>, sym: Seq<char>, i: int)
    requires
        0 <= i <= cur.len(),
        forall|p: int, q: int|
            0 <= p < q < cur.len() ==> (#[trigger] cur[p])@ != (#[trigger] cur[q])@,
    ensures
        ({
            let w = without_symbol(cur, sym, i);
            &&& forall|p: int, q: int|
                0 <= p < q < w.len() ==> (#[trigger] w[p])@ != (#[trigger] w[q])@
            &&& forall|q: int|
                0 <= q < w.len() ==> exists|j: int| 0 <= j < i && #[trigger] w[q] == cur[j]
        }),
    decreases i,
{
    if i > 0 {
        lemma_without_symbol_distinct(cur, sym, i - 1);
        let w0 = without_symbol(cur, sym, i - 1);
        let w = without_symbol(cur, sym, i);
        if cur[i - 1]@ != sym {
            assert forall|q: int| 0 <= q < w.len() implies exists|j: int|
                0 <= j < i && #[trigger] w[q] == cur[j] by {
                if q < w0.len() {
                    let j = choose|j: int| 0 <= j < i - 1 && #[trigger] w0[q] == cur[j];
                    assert(w[q] == cur[j]);
                } else {
                    assert(w[q] == cur[i - 1]);
                }
            }
            assert forall|p: int, q: int| 0 <= p < q < w.len() implies (#[trigger] w[p])@ != (
            #[trigger] w[q])@ by {
                if q == w.len() - 1 {
                    let j = choose|j: int| 0 <= j < i - 1 && #[trigger] w0[p] == cur[j];
                    assert(w[p] == cur[j] && w[q] == cur[i - 1]);
                }
            }
        } else {
            assert forall|q: int| 0 <= q < w.len() implies exists|j: int|
                0 <= j < i && #[trigger] w[q] == cur[j] by {
                let j = choose|j: int| 0 <= j < i - 1 && #[trigger] w0[q] == cur[j];
                assert(w[q] == cur[j]);
            }
        }
    }
}


/// Where a symbol goes in an already sorted list: the first index at or
/// after `j` holding a lexicographically greater symbol, else the end.
pub open spec fn symbol_insert_pos(s: Seq<String>, sym: Seq<char>, j: int) -> int
    decreases s.len() - j,
{
    if j < 0 || j >= s.len() {
        s.len() as int
    } else if chars_lt(sym, s[j]@) {
        j
    } else {
        symbol_insert_pos(s, sym, j + 1)
    }
}

/// The first `i` symbols of the list, stably sorted ascending.
pub open spec fn symbols_ascending(list: Seq<String>, i: int) -> Seq<String>
    decreases i,
{
    if i <= 0 {
        Seq::empty()
    } else {
        let prefix = symbols_ascending(list, i - 1);
        prefix.insert(symbol_insert_pos(prefix, list[i - 1]@, 0), list[i - 1])
    }
}

/// Lexicographically ascending: no later symbol comes before an earlier one.
pub open spec fn symbols_sorted(s: Seq<String>) -> bool {
    forall|p: int, q: int|
        0 <= p < q < s.len() ==> !chars_lt((#[trigger] s[q])@, (#[trigger] s[p])@)
}

/// The insertion position is in range, no symbol before it is greater, and
/// the symbol there (if any) is strictly greater.
proof fn lemma_symbol_insert_pos_props(s: Seq<String>, sym: Seq<char>, j: int)
    requires
        0 <= j <= s.len(),
    ensures
        ({
            let r = symbol_insert_pos(s, sym, j);
            &&& j <= r <= s.len()
            &&& forall|q: int| j <= q < r ==> !chars_lt(sym, (#[trigger] s[q])@)
            &&& r < s.len() ==> chars_lt(sym, s[r]@)
        }),
    decreases s.len() - j,
{
    if j < s.len() && !chars_lt(sym, s[j]@) {
        lemma_symbol_insert_pos_props(s, sym, j + 1);
    }
}

/// The stable sort holds one entry per input symbol and is ascending.
pub proof fn lemma_symbols_ascending_sorted(list: Seq<String>, i: int)
    requires
        0 <= i <= list.len(),
    ensures
        symbols_ascending(list, i).len() == i,
        symbols_sorted(symbols_ascending(list, i)),
    decreases i,
{
    if i > 0 {
        lemma_symbols_ascending_sorted(list, i - 1);
        let prefix = symbols_ascending(list, i - 1);
        let e = list[i - 1];
        let p = symbol_insert_pos(prefix, e@, 0);
        lemma_symbol_insert_pos_props(prefix, e@, 0);
        let s = prefix.insert(p, e);
        assert forall|a: int, b: int| 0 <= a < b < s.len() implies !chars_lt(
            (#[trigger] s[b])@,
            (#[trigger] s[a])@,
        ) by {
            if b < p {
            } else if a < p && b == p {
                assert(s[a] == prefix[a]);
            } else if a < p && b > p {
                assert(s[a] == prefix[a] && s[b] == prefix[b - 1]);
            } else if a == p && b > p {
                assert(s[b] == prefix[b - 1]);
                assert(chars_lt(e@, prefix[p]@));
                if chars_lt(prefix[b - 1]@, e@) {
                    lemma_chars_lt_trans(prefix[b - 1]@, e@, prefix[p]@);
                    if b - 1 == p {
                        lemma_chars_lt_irrefl(prefix[p]@);
                    }
                }
            } else if a > p {
                assert(s[a] == prefix[a - 1] && s[b] == prefix[b - 1]);
            }
        }
    }
}

/// The symbol and exchange directory: equity and exchange reference data,
/// the alias table, and the mutable set of actively tracked symbols.
pub struct Directory {
    stocks: Vec<StockEquity>,
    exchanges: Vec<Exchange>,
    yahoo_symbols: Vec<YahooSymbol>,
    active: Vec<String>,
}

impl Directory {
    /// The equity reference records.
    pub closed spec fn stocks_seq(self) -> Seq<StockEquity> {
        self.stocks@
    }

    /// The exchange reference records.
    pub closed spec fn exchanges_seq(self) -> Seq<Exchange> {
        self.exchanges@
    }

    /// The alias records.
    pub closed spec fn aliases_seq(self) -> Seq<YahooSymbol> {
        self.yahoo_symbols@
    }

    /// The active symbols, in insertion order.
    pub closed spec fn active_seq(self) -> Seq<String> {
        self.active@
    }

    /// The active set never holds one symbol twice.
    pub open spec fn wf(self) -> bool {
        forall|i: int, j: int|
            0 <= i < j < self.active_seq().len() ==> (#[trigger] self.active_seq()[i])@ != (
            #[trigger] self.active_seq()[j])@
    }

    /// A directory over the given reference data, with no active symbol yet.
    pub fn new(
        stocks: Vec<StockEquity>,
        exchanges: Vec<Exchange>,
        yahoo_symbols: Vec<YahooSymbol>,
    ) -> (r: Directory)
        ensures
            r.wf(),
            r.stocks_seq() == stocks@,
            r.exchanges_seq() == exchanges@,
            r.aliases_seq() == yahoo_symbols@,
            r.active_seq().len() == 0,
    {
        Directory { stocks, exchanges, yahoo_symbols, active: Vec::new() }
    }

    /// True when some equity record carries this symbol.
    pub fn check_equity_exists(&self, symbol: &str) -> (r: bool)
        ensures
            r == exists|i: int|
                0 <= i < self.stocks_seq().len() && (#[trigger] self.stocks_seq()[i]).symbol@
                    == symbol@,
    {
        let n = self.stocks.len();
        let mut i: usize = 0;
        while i < n
            invariant
                i <= n,
                n == self.stocks_seq().len(),
                forall|j: int| 0 <= j < i ==> (#[trigger] self.stocks_seq()[j]).symbol@ != symbol@,
            decreases n - i,
        {
            if str_eq(self.stocks[i].symbol.as_str(), symbol) {
                return true;
            }
            i = i + 1;
        }
        false
    }

    /// All equity records for this symbol, in catalog order.
    pub fn read_equity(&self, stock_symbol: &str) -> (r: Vec<StockEquity>)
        ensures
            r@ == equities_for(
                self.stocks_seq(),
                stock_symbol@,
                self.stocks_seq().len() as int,
            ),
    {
        let n = self.stocks.len();
        let mut r: Vec<StockEquity> = Vec::new();
        let mut i: usize = 0;
        while i < n
            invariant
                i <= n,
                n == self.stocks_seq().len(),
                r@ == equities_for(self.stocks_seq(), stock_symbol@, i as int),
            decreases n - i,
        {
            if str_eq(self.stocks[i].symbol.as_str(), stock_symbol) {
                r.push(self.stocks[i].clone());
            }
            i = i + 1;
        }
        r
    }

    /// Resolve a symbol that may be an alternate spelling: the first active
    /// symbol containing it; else the equity symbol reached through the
    /// alias table's description; else the input unchanged.
    pub fn match_yahoo_symbol_with_equity(&self, stock_symbol: &str) -> (r: String)
        ensures
            r@ == matched_alias(
                self.active_seq(),
                self.aliases_seq(),
                self.stocks_seq(),
                stock_symbol@,
            ),
    {
        let an = self.active.len();
        let mut i: usize = 0;
        while i < an
            invariant
                i <= an,
                an == self.active_seq().len(),
                active_match_from(self.active_seq(), stock_symbol@, 0) == active_match_from(
                    self.active_seq(),
                    stock_symbol@,
                    i as int,
                ),
            decreases an - i,
        {
            if str_contains(self.active[i].as_str(), stock_symbol) {
                return self.active[i].clone();
            }
            i = i + 1;
        }
        let yn = self.yahoo_symbols.len();
        let mut y: usize = 0;
        while y < yn
            invariant
                y <= yn,
                yn == self.aliases_seq().len(),
                active_match_from(self.active_seq(), stock_symbol@, 0) < 0,
                alias_index_from(self.aliases_seq(), stock_symbol@, 0) == alias_index_from(
                    self.aliases_seq(),
                    stock_symbol@,
                    y as int,
                ),
            decreases yn - y,
        {
            if str_eq(self.yahoo_symbols[y].ysymbol.as_str(), stock_symbol) {
                let ghost ai = y as int;
                let description = &self.yahoo_symbols[y].name;
                if description.as_str().unicode_len() > 0 {
                    let sn = self.stocks.len();
                    let mut s: usize = 0;
                    while s < sn
                        invariant
                            s <= sn,
                            sn == self.stocks_seq().len(),
                            active_match_from(self.active_seq(), stock_symbol@, 0) < 0,
                            alias_index_from(self.aliases_seq(), stock_symbol@, 0) == ai,
                            0 <= ai < self.aliases_seq().len(),
                            self.aliases_seq()[ai].name@ == description@,
                            description@.len() > 0,
                            name_index_from(self.stocks_seq(), description@, 0) == name_index_from(
                                self.stocks_seq(),
                                description@,
                                s as int,
                            ),
                        decreases sn - s,
                    {
                        if str_eq(self.stocks[s].name.as_str(), description.as_str()) {
                            return self.stocks[s].symbol.clone();
                        }
                        s = s + 1;
                    }
                }
                return String::from_str(stock_symbol);
            }
            y = y + 1;
        }
        String::from_str(stock_symbol)
    }

    /// All equity records for the symbol: read directly when the symbol is
    /// in the catalog; else resolve the alternate spelling through the
    /// alias lookup and read that spelling's records. A symbol the alias
    /// lookup leaves unchanged has no records, so the result is then empty.
    pub fn equity(&self, stock_symbol: &str) -> (r: Vec<StockEquity>)
        ensures
            r@ == equity_records(
                self.stocks_seq(),
                self.active_seq(),
                self.aliases_seq(),
                stock_symbol@,
            ),
    {
        if self.check_equity_exists(stock_symbol) {
            self.read_equity(stock_symbol)
        } else {
            let newsymbol = self.match_yahoo_symbol_with_equity(stock_symbol);
            if !str_eq(newsymbol.as_str(), stock_symbol) {
                self.read_equity(newsymbol.as_str())
            } else {
                proof {
                    lemma_equities_for_empty(
                        self.stocks_seq(),
                        stock_symbol@,
                        self.stocks_seq().len() as int,
                    );
                }
                Vec::new()
            }
        }
    }

    /// The exchange record with this code, else an empty default record.
    pub fn exchange(&self, exchange_code: &str) -> (r: Exchange)
        ensures
            ({
                let e = exchange_index_from(self.exchanges_seq(), exchange_code@, 0);
                &&& e >= 0 ==> r == self.exchanges_seq()[e]
                &&& e < 0 ==> r.title@ == Seq::<char>::empty() && r.name@ == Seq::<char>::empty()
                    && r.code@ == Seq::<char>::empty() && r.country@ == Seq::<char>::empty()
                    && r.timezone@ == Seq::<char>::empty()
            }),
    {
        let n = self.exchanges.len();
        let mut i: usize = 0;
        while i < n
            invariant
                i <= n,
                n == self.exchanges_seq().len(),
                exchange_index_from(self.exchanges_seq(), exchange_code@, 0)
                    == exchange_index_from(self.exchanges_seq(), exchange_code@, i as int),
            decreases n - i,
        {
            if str_eq(self.exchanges[i].code.as_str(), exchange_code) {
                return self.exchanges[i].clone();
            }
            i = i + 1;
        }
        Exchange::default()
    }

    /// Resolve a symbol to its metadata under the fallback order: the
    /// record on `exchange_code`, else the first EUR record, else the first
    /// USD record, else the first record; the chosen record's exchange code
    /// then selects the exchange whose title and timezone are merged in.
    /// The records come through the alias lookup when the symbol itself is
    /// not cataloged. With no record at all, the result carries only the
    /// symbol, and the caller must treat the symbol as unresolved. The
    /// query window is the caller's: it is returned zeroed here, or set in
    /// one step by [`Self::metadata_for_window`].
    pub fn metadata(&self, exchange_code: &str, stock_symbol: &str) -> (m: MetaData)
        ensures
            m.symbol@ == stock_symbol@,
            m.start_date == 0,
            m.end_date == 0,
            ({
                let list = equity_records(
                    self.stocks_seq(),
                    self.active_seq(),
                    self.aliases_seq(),
                    stock_symbol@,
                );
                let c = chosen_equity(list, exchange_code@);
                &&& c < 0 ==> m.currency@ == Seq::<char>::empty() && m.asset_type@
                    == Seq::<char>::empty() && m.exchange_code@ == Seq::<char>::empty()
                    && m.exchange@ == Seq::<char>::empty() && m.exchange_timezone@
                    == Seq::<char>::empty()
                &&& c >= 0 ==> ({
                    let chosen = list[c];
                    let e = exchange_index_from(self.exchanges_seq(), chosen.mic_code@, 0);
                    &&& m.currency@ == chosen.currency@
                    &&& m.asset_type@ == chosen.asset_type@
                    &&& m.exchange_code@ == chosen.mic_code@
                    &&& e >= 0 ==> m.exchange@ == self.exchanges_seq()[e].title@
                        && m.exchange_timezone@ == self.exchanges_seq()[e].timezone@
                    &&& e < 0 ==> m.exchange@ == Seq::<char>::empty() && m.exchange_timezone@
                        == Seq::<char>::empty()
                })
            }),
    {
        let list = self.equity(stock_symbol);
        let n = list.len();
        let ghost lseq = list@;
        let mut chosen: usize = 0;
        let mut found = false;
        let mut i: usize = 0;
        while i < n
            invariant
                i <= n,
                n == lseq.len(),
                list@ == lseq,
                !found ==> mic_index_from(lseq, exchange_code@, 0) == mic_index_from(
                    lseq,
                    exchange_code@,
                    i as int,
                ),
                found ==> mic_index_from(lseq, exchange_code@, 0) == chosen as int && chosen < n,
            decreases n - i,
        {
            if !found && str_eq(list[i].mic_code.as_str(), exchange_code) {
                chosen = i;
                found = true;
            }
            i = i + 1;
        }
        if !found {
            let eur = String::from_str("EUR");
            let mut i: usize = 0;
            while i < n
                invariant
                    i <= n,
                    n == lseq.len(),
                    list@ == lseq,
                    eur@ == "EUR"@,
                    mic_index_from(lseq, exchange_code@, 0) < 0,
                    !found ==> currency_index_from(lseq, "EUR"@, 0) == currency_index_from(
                        lseq,
                        "EUR"@,
                        i as int,
                    ),
                    found ==> currency_index_from(lseq, "EUR"@, 0) == chosen as int && chosen < n,
                decreases n - i,
            {
                if !found && str_eq(list[i].currency.as_str(), eur.as_str()) {
                    chosen = i;
                    found = true;
                }
                i = i + 1;
            }
        }
        if !found {
            let usd = String::from_str("USD");
            let mut i: usize = 0;
            while i < n
                invariant
                    i <= n,
                    n == lseq.len(),
                    list@ == lseq,
                    usd@ == "USD"@,
                    mic_index_from(lseq, exchange_code@, 0) < 0,
                    currency_index_from(lseq, "EUR"@, 0) < 0,
                    !found ==> currency_index_from(lseq, "USD"@, 0) == currency_index_from(
                        lseq,
                        "USD"@,
                        i as int,
                    ),
                    found ==> currency_index_from(lseq, "USD"@, 0) == chosen as int && chosen < n,
                decreases n - i,
            {
                if !found && str_eq(list[i].currency.as_str(), usd.as_str()) {
                    chosen = i;
                    found = true;
                }
                i = i + 1;
            }
        }
        if !found && n > 0 {
            chosen = 0;
            found = true;
        }
        let mut m = MetaData::default();
        m.symbol = String::from_str(stock_symbol);
        if !found {
            return m;
        }
        let rec = &list[chosen];
        m.currency = rec.currency.clone();
        m.asset_type = rec.asset_type.clone();
        m.exchange_code = rec.mic_code.clone();
        let ex = self.exchange(rec.mic_code.as_str());
        m.exchange = ex.title;
        m.exchange_timezone = ex.timezone;
        m
    }

    /// True when the symbol is in the active set.
    pub fn check_symbol_exists(&self, symbol: &str) -> (r: bool)
        ensures
            r == contains_symbol(self.active_seq(), symbol@),
    {
        let n = self.active.len();
        let mut i: usize = 0;
        while i < n
            invariant
                i <= n,
                n == self.active_seq().len(),
                forall|j: int| 0 <= j < i ==> (#[trigger] self.active_seq()[j])@ != symbol@,
            decreases n - i,
        {
            if str_eq(self.active[i].as_str(), symbol) {
                return true;
            }
            i = i + 1;
        }
        false
    }

    /// How many active entries carry the metadata's symbol: one or zero,
    /// since the active set holds no symbol twice.
    pub fn active_symbols_count(&self, metadata: &MetaData) -> (r: usize)
        ensures
            r == count_symbol(self.active_seq(), metadata.symbol@, self.active_seq().len() as int),
    {
        let n = self.active.len();
        let mut count: usize = 0;
        let mut i: usize = 0;
        while i < n
            invariant
                i <= n,
                n == self.active_seq().len(),
                count == count_symbol(self.active_seq(), metadata.symbol@, i as int),
                count <= i,
            decreases n - i,
        {
            if str_eq(self.active[i].as_str(), metadata.symbol.as_str()) {
                count = count + 1;
            }
            i = i + 1;
        }
        count
    }

    /// The active symbols, ascending lexicographically by code point.
    pub fn active_symbols(&self) -> (r: Vec<String>)
        ensures
            r@ == symbols_ascending(self.active_seq(), self.active_seq().len() as int),
            symbols_sorted(r@),
    {
        let n = self.active.len();
        let mut r: Vec<String> = Vec::new();
        let mut i: usize = 0;
        while i < n
            invariant
                i <= n,
                n == self.active_seq().len(),
                r@ == symbols_ascending(self.active_seq(), i as int),
                r@.len() == i,
            decreases n - i,
        {
            let sym = &self.active[i];
            let mut pos: usize = 0;
            while pos < r.len() && !str_lt(sym.as_str(), r[pos].as_str())
                invariant
                    pos <= r@.len(),
                    symbol_insert_pos(r@, sym@, 0) == symbol_insert_pos(r@, sym@, pos as int),
                decreases r@.len() - pos,
            {
                pos = pos + 1;
            }
            r.insert(pos, sym.clone());
            i = i + 1;
        }
        proof {
            lemma_symbols_ascending_sorted(self.active_seq(), n as int);
        }
        r
    }

    /// Add symbols to the active set, skipping each one already present.
    /// Returns 0, the success code.
    pub fn insert_active_symbols(&mut self, symbols: &Vec<String>) -> (r: u32)
        requires
            old(self).wf(),
        ensures
            r == 0,
            final(self).wf(),
            final(self).stocks_seq() == old(self).stocks_seq(),
            final(self).exchanges_seq() == old(self).exchanges_seq(),
            final(self).aliases_seq() == old(self).aliases_seq(),
            final(self).active_seq() == added_unique(
                old(self).active_seq(),
                symbols@,
                symbols@.len() as int,
            ),
    {
        let n = symbols.len();
        let mut i: usize = 0;
        while i < n
            invariant
                i <= n,
                n == symbols@.len(),
                self.wf(),
                self.stocks_seq() == old(self).stocks_seq(),
                self.exchanges_seq() == old(self).exchanges_seq(),
                self.aliases_seq() == old(self).aliases_seq(),
                self.active_seq() == added_unique(old(self).active_seq(), symbols@, i as int),
            decreases n - i,
        {
            if !self.check_symbol_exists(symbols[i].as_str()) {
                self.active.push(symbols[i].clone());
            }
            i = i + 1;
        }
        0
    }

    /// Remove each named symbol from the active set.
    pub fn delete_active_symbols(&mut self, symbols: &Vec<String>)
        requires
            old(self).wf(),
        ensures
            final(self).wf(),
            final(self).stocks_seq() == old(self).stocks_seq(),
            final(self).exchanges_seq() == old(self).exchanges_seq(),
            final(self).aliases_seq() == old(self).aliases_seq(),
            final(self).active_seq() == deleted_symbols(
                old(self).active_seq(),
                symbols@,
                symbols@.len() as int,
            ),
    {
        let n = symbols.len();
        let mut i: usize = 0;
        while i < n
            invariant
                i <= n,
                n == symbols@.len(),
                self.wf(),
                self.stocks_seq() == old(self).stocks_seq(),
                self.exchanges_seq() == old(self).exchanges_seq(),
                self.aliases_seq() == old(self).aliases_seq(),
                self.active_seq() == deleted_symbols(old(self).active_seq(), symbols@, i as int),
            decreases n - i,
        {
            self.delete_one_active_symbol(symbols[i].as_str());
            i = i + 1;
        }
    }

    /// Remove one symbol from the active set.
    fn delete_one_active_symbol(&mut self, symbol: &str)
        requires
            old(self).wf(),
        ensures
            final(self).wf(),
            final(self).stocks_seq() == old(self).stocks_seq(),
            final(self).exchanges_seq() == old(self).exchanges_seq(),
            final(self).aliases_seq() == old(self).aliases_seq(),
            final(self).active_seq() == without_symbol(
                old(self).active_seq(),
                symbol@,
                old(self).active_seq().len() as int,
            ),
    {
        let n = self.active.len();
        let mut kept: Vec<String> = Vec::new();
        let mut i: usize = 0;
        while i < n
            invariant
                i <= n,
                n == self.active_seq().len(),
                self.wf(),
                kept@ == without_symbol(self.active_seq(), symbol@, i as int),
            decreases n - i,
        {
            if !str_eq(self.active[i].as_str(), symbol) {
                kept.push(self.active[i].clone());
            }
            i = i + 1;
        }
        proof {
            lemma_without_symbol_distinct(self.active_seq(), symbol@, n as int);
        }
        self.active = kept;
    }

    /// Replace the named symbols' membership: delete them, then add the
    /// batch back, skipping duplicates within it.
    pub fn update_active_symbols(&mut self, symbols: &Vec<String>)
        requires
            old(self).wf(),
        ensures
            final(self).wf(),
            final(self).stocks_seq() == old(self).stocks_seq(),
            final(self).exchanges_seq() == old(self).exchanges_seq(),
            final(self).aliases_seq() == old(self).aliases_seq(),
            final(self).active_seq() == added_unique(
                deleted_symbols(old(self).active_seq(), symbols@, symbols@.len() as int),
                symbols@,
                symbols@.len() as int,
            ),
    {
        self.delete_active_symbols(symbols);
        self.insert_active_symbols(symbols);
    }

    /// Resolve a symbol to its metadata, or report it unresolved when no
    /// equity record exists for it: the caller must skip such a symbol
    /// rather than crash.
    pub fn resolve(&self, exchange_code: &str, stock_symbol: &str) -> (r: Result<
        MetaData,
        PipelineError,
    >)
        ensures
            ({
                let list = equity_records(
                    self.stocks_seq(),
                    self.active_seq(),
                    self.aliases_seq(),
                    stock_symbol@,
                );
                &&& r is Err <==> list.len() == 0
                &&& r is Err ==> r == Err::<MetaData, PipelineError>(
                    PipelineError::SymbolUnresolved,
                )
                &&& r matches Ok(m) ==> ({
                    let c = chosen_equity(list, exchange_code@);
                    let chosen = list[c];
                    let e = exchange_index_from(self.exchanges_seq(), chosen.mic_code@, 0);
                    &&& 0 <= c < list.len()
                    &&& m.symbol@ == stock_symbol@
                    &&& m.currency@ == chosen.currency@
                    &&& m.asset_type@ == chosen.asset_type@
                    &&& m.exchange_code@ == chosen.mic_code@
                    &&& e >= 0 ==> m.exchange@ == self.exchanges_seq()[e].title@
                        && m.exchange_timezone@ == self.exchanges_seq()[e].timezone@
                    &&& e < 0 ==> m.exchange@ == Seq::<char>::empty() && m.exchange_timezone@
                        == Seq::<char>::empty()
                })
            }),
    {
        let list = self.equity(stock_symbol);
        if list.len() == 0 {
            return Err(PipelineError::SymbolUnresolved);
        }
        let m = self.metadata(exchange_code, stock_symbol);
        proof {
            let lseq = equity_records(
                self.stocks_seq(),
                self.active_seq(),
                self.aliases_seq(),
                stock_symbol@,
            );
            lemma_currency_index_spec(lseq, "EUR"@, 0);
            lemma_currency_index_spec(lseq, "USD"@, 0);
            lemma_mic_index_in_range(lseq, exchange_code@, 0);
        }
        Ok(m)
    }

    /// Resolve a symbol to its metadata with the query window set in the
    /// same step: the resolution of [`Self::metadata`], the window the
    /// caller's, as epoch seconds.
    pub fn metadata_for_window(
        &self,
        exchange_code: &str,
        stock_symbol: &str,
        start_date: i64,
        end_date: i64,
    ) -> (m: MetaData)
        ensures
            m.symbol@ == stock_symbol@,
            m.start_date == start_date,
            m.end_date == end_date,
            ({
                let list = equity_records(
                    self.stocks_seq(),
                    self.active_seq(),
                    self.aliases_seq(),
                    stock_symbol@,
                );
                let c = chosen_equity(list, exchange_code@);
                &&& c < 0 ==> m.currency@ == Seq::<char>::empty() && m.asset_type@
                    == Seq::<char>::empty() && m.exchange_code@ == Seq::<char>::empty()
                    && m.exchange@ == Seq::<char>::empty() && m.exchange_timezone@
                    == Seq::<char>::empty()
                &&& c >= 0 ==> ({
                    let chosen = list[c];
                    let e = exchange_index_from(self.exchanges_seq(), chosen.mic_code@, 0);
                    &&& m.currency@ == chosen.currency@
                    &&& m.asset_type@ == chosen.asset_type@
                    &&& m.exchange_code@ == chosen.mic_code@
                    &&& e >= 0 ==> m.exchange@ == self.exchanges_seq()[e].title@
                        && m.exchange_timezone@ == self.exchanges_seq()[e].timezone@
                    &&& e < 0 ==> m.exchange@ == Seq::<char>::empty() && m.exchange_timezone@
                        == Seq::<char>::empty()
                })
            }),
    {
        let mut m = self.metadata(exchange_code, stock_symbol);
        m.start_date = start_date;
        m.end_date = end_date;
        m
    }
}


} // verus!
