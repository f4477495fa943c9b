use stockwatch::directory::{Directory, Equities, Exchange, Exchanges, StockEquity, YahooSymbol, YahooSymbols};
use stockwatch::gateway::PipelineError;

fn equity_rec(symbol: &str, name: &str, currency: &str, mic: &str) -> StockEquity {
    let mut e = StockEquity::default();
    e.symbol = symbol.to_string();
    e.name = name.to_string();
    e.currency = currency.to_string();
    e.mic_code = mic.to_string();
    e.asset_type = "Common Stock".to_string();
    e
}

fn exchange_rec(code: &str, title: &str, timezone: &str) -> Exchange {
    let mut x = Exchange::default();
    x.code = code.to_string();
    x.title = title.to_string();
    x.timezone = timezone.to_string();
    x
}

fn alias_rec(ysymbol: &str, name: &str) -> YahooSymbol {
    let mut y = YahooSymbol::default();
    y.ysymbol = ysymbol.to_string();
    y.name = name.to_string();
    y
}

#[test]
fn preferred_exchange_wins() {
    let stocks = vec![
        equity_rec("ACME", "Acme Corp", "USD", "XNAS"),
        equity_rec("ACME", "Acme Corp", "EUR", "XFRA"),
    ];
    let exchanges = vec![exchange_rec("XFRA", "Frankfurt", "Europe/Berlin")];
    let dir = Directory::new(stocks, exchanges, Vec::new());
    let m = dir.metadata("XFRA", "ACME");
    assert_eq!(m.symbol, "ACME");
    assert_eq!(m.currency, "EUR");
    assert_eq!(m.exchange_code, "XFRA");
    assert_eq!(m.exchange, "Frankfurt");
    assert_eq!(m.exchange_timezone, "Europe/Berlin");
}

#[test]
fn eur_record_wins_over_gbp_without_preferred_exchange() {
    // Records in GBP and EUR, none on the preferred exchange: the EUR
    // record is selected over the GBP one.
    let stocks = vec![
        equity_rec("ACME", "Acme Corp", "GBP", "XLON"),
        equity_rec("ACME", "Acme Corp", "EUR", "XPAR"),
    ];
    let exchanges = vec![exchange_rec("XPAR", "Paris", "Europe/Paris")];
    let dir = Directory::new(stocks, exchanges, Vec::new());
    let m = dir.metadata("XNAS", "ACME");
    assert_eq!(m.currency, "EUR");
    assert_eq!(m.exchange_code, "XPAR");
    assert_eq!(m.exchange, "Paris");
}

#[test]
fn usd_record_wins_after_eur() {
    let stocks = vec![
        equity_rec("ACME", "Acme Corp", "GBP", "XLON"),
        equity_rec("ACME", "Acme Corp", "USD", "XNAS"),
    ];
    let dir = Directory::new(stocks, Vec::new(), Vec::new());
    let m = dir.metadata("XFRA", "ACME");
    assert_eq!(m.currency, "USD");
    assert_eq!(m.exchange_code, "XNAS");
    // No exchange record: title and timezone stay empty.
    assert_eq!(m.exchange, "");
}

#[test]
fn first_record_wins_as_last_resort() {
    // Only GBP records: the first available record is selected.
    let stocks = vec![
        equity_rec("ACME", "Acme Corp", "GBP", "XLON"),
        equity_rec("ACME", "Acme Corp", "GBP", "XEDI"),
    ];
    let dir = Directory::new(stocks, Vec::new(), Vec::new());
    let m = dir.metadata("XFRA", "ACME");
    assert_eq!(m.currency, "GBP");
    assert_eq!(m.exchange_code, "XLON");
}

#[test]
fn unresolved_symbol_carries_only_the_symbol() {
    let dir = Directory::new(Vec::new(), Vec::new(), Vec::new());
    let m = dir.metadata("XFRA", "NOPE");
    assert_eq!(m.symbol, "NOPE");
    assert_eq!(m.currency, "");
    assert_eq!(m.exchange_code, "");
    assert_eq!(m.exchange, "");
    assert_eq!(m.exchange_timezone, "");
}

#[test]
fn equity_filters_records_by_symbol() {
    let stocks = vec![
        equity_rec("ACME", "Acme Corp", "USD", "XNAS"),
        equity_rec("BRGT", "Bright Inc", "USD", "XNAS"),
        equity_rec("ACME", "Acme Corp", "EUR", "XFRA"),
    ];
    let dir = Directory::new(stocks, Vec::new(), Vec::new());
    assert!(dir.check_equity_exists("ACME"));
    assert!(!dir.check_equity_exists("NOPE"));
    let list = dir.equity("ACME");
    assert_eq!(list.len(), 2);
    assert_eq!(list[0].mic_code, "XNAS");
    assert_eq!(list[1].mic_code, "XFRA");
    assert!(dir.equity("NOPE").is_empty());
}

#[test]
fn alias_matches_active_symbol_by_substring() {
    let dir0 = Directory::new(Vec::new(), Vec::new(), Vec::new());
    let mut dir = dir0;
    dir.insert_active_symbols(&vec!["ACME.DE".to_string(), "BRGT".to_string()]);
    assert_eq!(dir.match_yahoo_symbol_with_equity("ACME"), "ACME.DE");
}

#[test]
fn alias_falls_back_to_description_lookup() {
    let stocks = vec![equity_rec("ACME", "Acme Corp", "USD", "XNAS")];
    let aliases = vec![alias_rec("ACME.F", "Acme Corp")];
    let dir = Directory::new(stocks, Vec::new(), aliases);
    assert_eq!(dir.match_yahoo_symbol_with_equity("ACME.F"), "ACME");
}

#[test]
fn alias_without_any_match_is_identity() {
    let dir = Directory::new(Vec::new(), Vec::new(), Vec::new());
    assert_eq!(dir.match_yahoo_symbol_with_equity("NOPE"), "NOPE");
}

#[test]
fn active_symbols_stay_unique() {
    let mut dir = Directory::new(Vec::new(), Vec::new(), Vec::new());
    let ret = dir.insert_active_symbols(&vec!["ACME".to_string(), "BRGT".to_string()]);
    assert_eq!(ret, 0);
    dir.insert_active_symbols(&vec!["ACME".to_string(), "CRNE".to_string()]);
    let active = dir.active_symbols();
    assert_eq!(active, vec!["ACME".to_string(), "BRGT".to_string(), "CRNE".to_string()]);
    assert!(dir.check_symbol_exists("BRGT"));
    assert!(!dir.check_symbol_exists("NOPE"));
    let mut m = stockwatch::directory::MetaData::default();
    m.symbol = "ACME".to_string();
    assert_eq!(dir.active_symbols_count(&m), 1);
}

#[test]
fn active_symbols_delete_and_update() {
    let mut dir = Directory::new(Vec::new(), Vec::new(), Vec::new());
    dir.insert_active_symbols(&vec!["ACME".to_string(), "BRGT".to_string(), "CRNE".to_string()]);
    dir.delete_active_symbols(&vec!["BRGT".to_string(), "NOPE".to_string()]);
    assert_eq!(dir.active_symbols(), vec!["ACME".to_string(), "CRNE".to_string()]);
    dir.update_active_symbols(&vec!["ACME".to_string(), "DLTA".to_string()]);
    assert_eq!(
        dir.active_symbols(),
        vec!["ACME".to_string(), "CRNE".to_string(), "DLTA".to_string()]
    );
}

#[test]
fn active_symbols_read_back_sorted() {
    let mut dir = Directory::new(Vec::new(), Vec::new(), Vec::new());
    dir.insert_active_symbols(&vec!["BRGT".to_string(), "ACME".to_string()]);
    assert_eq!(dir.active_symbols(), vec!["ACME".to_string(), "BRGT".to_string()]);
}

#[test]
fn catalog_pages_carry_their_records() {
    let equities = Equities {
        data: vec![equity_rec("ACME", "Acme Corp", "USD", "XNAS")],
        count: 1,
        status: "ok".to_string(),
    };
    assert_eq!(equities.data.len(), 1);
    assert_eq!(equities.count, 1);
    let exchanges =
        Exchanges { data: vec![exchange_rec("XNAS", "Nasdaq", "America/New_York")], status: "ok".to_string() };
    assert_eq!(exchanges.data[0].title, "Nasdaq");
    let aliases = YahooSymbols {
        data: vec![alias_rec("ACME.F", "Acme Corp")],
        count: 1,
        status: "ok".to_string(),
    };
    assert_eq!(aliases.data[0].ysymbol, "ACME.F");
}

#[test]
fn resolve_reports_an_unresolved_symbol() {
    let stocks = vec![equity_rec("ACME", "Acme Corp", "EUR", "XFRA")];
    let dir = Directory::new(stocks, Vec::new(), Vec::new());
    let m = dir.resolve("XFRA", "ACME").expect("a cataloged symbol resolves");
    assert_eq!(m.currency, "EUR");
    assert!(matches!(dir.resolve("XFRA", "NOPE"), Err(PipelineError::SymbolUnresolved)));
}

#[test]
fn equity_follows_the_alias_to_its_records() {
    // "ACME.F" is cataloged only through the alias table: its description
    // leads to the record stored under "ACME", and the whole resolution
    // chain returns that record.
    let stocks = vec![equity_rec("ACME", "Acme Corp", "EUR", "XFRA")];
    let aliases = vec![alias_rec("ACME.F", "Acme Corp")];
    let exchanges = vec![exchange_rec("XFRA", "Frankfurt", "Europe/Berlin")];
    let dir = Directory::new(stocks, exchanges, aliases);
    let list = dir.equity("ACME.F");
    assert_eq!(list.len(), 1);
    assert_eq!(list[0].symbol, "ACME");
    assert_eq!(list[0].currency, "EUR");
    let m = dir.metadata("XFRA", "ACME.F");
    assert_eq!(m.symbol, "ACME.F");
    assert_eq!(m.currency, "EUR");
    assert_eq!(m.exchange_code, "XFRA");
    assert_eq!(m.exchange, "Frankfurt");
    let resolved = dir.resolve("XFRA", "ACME.F").expect("an aliased symbol resolves");
    assert_eq!(resolved.currency, "EUR");
}

#[test]
fn metadata_for_window_sets_the_query_window() {
    let stocks = vec![equity_rec("ACME", "Acme Corp", "EUR", "XFRA")];
    let dir = Directory::new(stocks, Vec::new(), Vec::new());
    let m = dir.metadata_for_window("XFRA", "ACME", 100, 200);
    assert_eq!(m.currency, "EUR");
    assert_eq!(m.start_date, 100);
    assert_eq!(m.end_date, 200);
}
