use klines::{
    classify_response, entry_name, enumerate_cells, ingest_cell, is_benign_duplicate, locate,
    plan_fetch, response_action, u32_dec, u32_two_digit, ApiErr, Candle, CandleStore, CellResult,
    CellState, Config, ConfigError, Decimal, FetchOutcome, FetchPlan, FieldErrors, IngestError,
    Run, Symbol,
};

fn candle(symbol: &str, interval: &str, open_time: i64, open_mant: u64) -> Candle {
    Candle {
        symbol: symbol.to_string(),
        interval: interval.to_string(),
        open_time,
        open: Decimal::new(false, open_mant, 1),
        high: Decimal::new(false, open_mant + 10, 1),
        low: Decimal::new(false, open_mant - 10, 1),
        close: Decimal::new(false, open_mant + 5, 1),
        volume: Decimal::new(false, 10000, 1),
        num_trades: 500,
        taker_volume: Decimal::new(false, 2000, 1),
    }
}

#[test]
fn status_classification() {
    assert_eq!(classify_response(200), FetchOutcome::Downloaded);
    assert_eq!(classify_response(299), FetchOutcome::Downloaded);
    assert_eq!(classify_response(404), FetchOutcome::NotFound);
    assert_eq!(classify_response(300), FetchOutcome::Failed(300));
    assert_eq!(classify_response(500), FetchOutcome::Failed(500));
    assert_eq!(classify_response(199), FetchOutcome::Failed(199));
}

#[test]
fn not_found_writes_no_file() {
    let (outcome, write) = response_action(404);
    assert_eq!(outcome, FetchOutcome::NotFound);
    assert!(!write);
    let (outcome, write) = response_action(200);
    assert_eq!(outcome, FetchOutcome::Downloaded);
    assert!(write);
    let (outcome, write) = response_action(503);
    assert_eq!(outcome, FetchOutcome::Failed(503));
    assert!(!write);
}

#[test]
fn cache_file_short_circuits_fetch() {
    assert_eq!(plan_fetch(true), FetchPlan::UseCache);
    assert_eq!(plan_fetch(false), FetchPlan::Request);
}

#[test]
fn locates_archive_url_and_cache_path() {
    let loc = locate("BTCUSDT", "1h", 2021, 3);
    assert_eq!(
        loc.url,
        "https://data.binance.vision/data/spot/monthly/klines/BTCUSDT/1h/BTCUSDT-1h-2021-03.zip"
    );
    assert_eq!(loc.path, "history/BTCUSDT/1h/2021-03.zip");
    assert_eq!(entry_name("BTCUSDT", "1h", 2021, 3), "BTCUSDT-1h-2021-03.csv");
    let loc = locate("ETHUSDT", "1mo", 2024, 12);
    assert_eq!(
        loc.url,
        "https://data.binance.vision/data/spot/monthly/klines/ETHUSDT/1mo/ETHUSDT-1mo-2024-12.zip"
    );
    assert_eq!(loc.path, "history/ETHUSDT/1mo/2024-12.zip");
}

#[test]
fn renders_numbers() {
    assert_eq!(u32_dec(0), "0");
    assert_eq!(u32_dec(7), "7");
    assert_eq!(u32_dec(2024), "2024");
    assert_eq!(u32_two_digit(3), "03");
    assert_eq!(u32_two_digit(12), "12");
}

#[test]
fn enumerates_the_full_matrix_in_stable_order() {
    let symbols = vec!["BTCUSDT".to_string(), "ETHUSDT".to_string()];
    let cells = enumerate_cells(&symbols);
    assert_eq!(cells.len(), 2 * 9 * 8 * 12);
    // Months first, then years, then intervals, then symbols.
    assert_eq!(cells[0].symbol, "BTCUSDT");
    assert_eq!(cells[0].interval, "15m");
    assert_eq!(cells[0].year, 2017);
    assert_eq!(cells[0].month, 1);
    assert_eq!(cells[1].month, 2);
    assert_eq!(cells[12].year, 2018);
    assert_eq!(cells[12].month, 1);
    assert_eq!(cells[96].interval, "30m");
    assert_eq!(cells[96].year, 2017);
    assert_eq!(cells[863].interval, "1mo");
    assert_eq!(cells[863].year, 2024);
    assert_eq!(cells[863].month, 12);
    assert_eq!(cells[864].symbol, "ETHUSDT");
    assert_eq!(cells[864].interval, "15m");
    assert_eq!(cells[864].year, 2017);
    assert_eq!(cells[864].month, 1);

    // Re-enumeration yields the identical order.
    let again = enumerate_cells(&symbols);
    for (a, b) in cells.iter().zip(again.iter()) {
        assert_eq!(a.symbol, b.symbol);
        assert_eq!(a.interval, b.interval);
        assert_eq!(a.year, b.year);
        assert_eq!(a.month, b.month);
    }
}

#[test]
fn load_batch_is_idempotent() {
    let mut store = CandleStore::new();
    let records = vec![
        candle("BTCUSDT", "1h", 1000, 1000),
        candle("BTCUSDT", "1h", 2000, 1010),
        candle("BTCUSDT", "1h", 3000, 1020),
    ];
    let first = store.load_batch(&records);
    assert_eq!(first, 3);
    assert_eq!(store.len(), 3);
    let second = store.load_batch(&records);
    assert_eq!(second, 0);
    assert_eq!(store.len(), 3);
}

#[test]
fn ingesting_a_cell_twice_stores_it_once() {
    let symbol = String::from("BTCUSDT");
    let interval = String::from("1h");
    let data = b"1609459200000,100.0,110.0,90.0,105.0,1000.0,x,x,500,200.0\n\
1609462800000,105.0,115.0,95.0,110.0,1100.0,x,x,600,210.0\n";
    let mut store = CandleStore::new();
    assert_eq!(ingest_cell(&mut store, &symbol, &interval, data), Ok(2));
    assert_eq!(ingest_cell(&mut store, &symbol, &interval, data), Ok(0));
    assert_eq!(store.len(), 2);
    assert_eq!(store.row(0).open_time, 1609459200000);
    assert_eq!(store.row(1).open_time, 1609462800000);
}

#[test]
fn ingesting_a_malformed_cell_changes_nothing() {
    let symbol = String::from("BTCUSDT");
    let interval = String::from("1h");
    let mut store = CandleStore::new();
    assert_eq!(
        ingest_cell(&mut store, &symbol, &interval, b"1,2\n"),
        Err(IngestError::RowMalformed)
    );
    assert_eq!(store.len(), 0);
}

#[test]
fn conflicting_key_keeps_first_write() {
    let mut store = CandleStore::new();
    let first = candle("BTCUSDT", "1h", 1000, 1000);
    let mut second = candle("BTCUSDT", "1h", 1000, 9999);
    second.num_trades = 1;
    assert!(store.insert_ignore(first.clone()));
    assert!(!store.insert_ignore(second));
    assert_eq!(store.len(), 1);
    assert_eq!(*store.row(0), first);
}

#[test]
fn distinct_keys_all_persist() {
    let mut store = CandleStore::new();
    assert!(store.insert_ignore(candle("BTCUSDT", "1h", 1000, 1000)));
    assert!(store.insert_ignore(candle("BTCUSDT", "4h", 1000, 1000)));
    assert!(store.insert_ignore(candle("ETHUSDT", "1h", 1000, 1000)));
    assert!(store.insert_ignore(candle("BTCUSDT", "1h", 2000, 1000)));
    assert_eq!(store.len(), 4);
}

#[test]
fn not_found_cell_is_terminal_without_parse_or_load() {
    let mut run = Run::new(2, 4);
    run.start_fetch(0);
    run.finish_fetch(0, FetchOutcome::NotFound);
    assert_eq!(run.state(0), CellState::Done(CellResult::Empty));
    assert_eq!(run.state(1), CellState::Pending);
}

#[test]
fn one_failed_cell_leaves_siblings_running_to_done() {
    let mut run = Run::new(3, 2);

    // Cell 1 fails its fetch with a server error.
    run.start_fetch(1);
    run.finish_fetch(1, classify_response(500));
    assert_eq!(
        run.state(1),
        CellState::Done(CellResult::Failed(IngestError::FetchFailed(500)))
    );

    // Its siblings proceed through the whole lifecycle untouched.
    for i in [0usize, 2usize] {
        run.start_fetch(i);
        run.finish_fetch(i, FetchOutcome::Downloaded);
        run.start_parse(i);
        run.finish_parse(i, Ok(()));
        run.start_load(i);
        run.finish_load(i, Ok(7));
        assert_eq!(run.state(i), CellState::Done(CellResult::Loaded(7)));
    }
    assert!(run.all_done());
    assert_eq!(
        run.state(1),
        CellState::Done(CellResult::Failed(IngestError::FetchFailed(500)))
    );
}

#[test]
fn parse_and_load_failures_are_recorded_per_cell() {
    let mut run = Run::new(4, 2);
    run.start_fetch(0);
    run.finish_fetch(0, FetchOutcome::Cached);
    run.start_parse(0);
    run.finish_parse(0, Err(IngestError::RowMalformed));
    assert_eq!(
        run.state(0),
        CellState::Done(CellResult::Failed(IngestError::RowMalformed))
    );

    // An unopenable container and a missing row file are parse-stage
    // failures of their own cells.
    run.start_fetch(2);
    run.finish_fetch(2, FetchOutcome::Cached);
    run.start_parse(2);
    run.finish_parse(2, Err(IngestError::ArchiveCorrupt));
    assert_eq!(
        run.state(2),
        CellState::Done(CellResult::Failed(IngestError::ArchiveCorrupt))
    );
    run.start_fetch(3);
    run.finish_fetch(3, FetchOutcome::Downloaded);
    run.start_parse(3);
    run.finish_parse(3, Err(IngestError::MissingEntry));
    assert_eq!(
        run.state(3),
        CellState::Done(CellResult::Failed(IngestError::MissingEntry))
    );

    run.start_fetch(1);
    run.finish_fetch(1, FetchOutcome::Downloaded);
    run.start_parse(1);
    run.finish_parse(1, Ok(()));
    run.start_load(1);
    run.finish_load(1, Err(IngestError::PersistenceFailed));
    assert_eq!(
        run.state(1),
        CellState::Done(CellResult::Failed(IngestError::PersistenceFailed))
    );
    assert!(run.all_done());
}

#[test]
fn in_flight_fetches_never_exceed_the_cap() {
    let cap = 3usize;
    let cells = 10usize;
    let mut run = Run::new(cells, cap);
    let mut started: Vec<usize> = Vec::new();
    let mut next = 0usize;
    let mut max_in_flight = 0usize;

    // An instrumented driver: dispatch while capacity remains, then retire
    // the oldest in-flight fetch, and watch the high-water mark.
    while next < cells || !started.is_empty() {
        while next < cells && run.can_start_fetch() {
            run.start_fetch(next);
            started.push(next);
            next += 1;
            max_in_flight = max_in_flight.max(run.in_flight());
        }
        assert!(run.in_flight() <= cap);
        if !started.is_empty() {
            let i = started.remove(0);
            run.finish_fetch(i, FetchOutcome::NotFound);
        }
    }
    assert_eq!(max_in_flight, cap);
    assert_eq!(run.in_flight(), 0);
    assert!(run.all_done());
}

#[test]
fn filters_trading_symbols_in_order() {
    let mk = |code: &str, status: &str| Symbol {
        symbol: code.to_string(),
        status: status.to_string(),
        base_asset: code[..3].to_string(),
        quote_asset: code[3..].to_string(),
    };
    let all = vec![
        mk("BTCUSDT", "TRADING"),
        mk("OLDUSDT", "BREAK"),
        mk("ETHUSDT", "TRADING"),
    ];
    let active = Symbol::filter_trading(&all);
    assert_eq!(active.len(), 2);
    assert_eq!(active[0].symbol, "BTCUSDT");
    assert_eq!(active[1].symbol, "ETHUSDT");
}

#[test]
fn duplicate_symbol_insert_is_benign_only_on_the_pkey_conflict() {
    assert!(is_benign_duplicate(&Some("symbols_pkey".to_string())));
    assert!(!is_benign_duplicate(&Some("candles_pkey".to_string())));
    assert!(!is_benign_duplicate(&None));
}

#[test]
fn config_requires_its_variables_in_order() {
    let ok = Config::init(
        Some("postgres://localhost/k".to_string()),
        None,
        Some("127.0.0.1:8080".to_string()),
        Some("SECRET-REDACTED".to_string()),
    )
    .expect("all required values present");
    assert_eq!(ok.database_url, "postgres://localhost/k");
    assert_eq!(ok.host, "127.0.0.1:8080");
    assert_eq!(ok.cors_origin, None);
    assert_eq!(ok.jwt_secret, "SECRET-REDACTED");

    assert_eq!(
        Config::init(None, None, Some("h".to_string()), Some("s".to_string())).unwrap_err(),
        ConfigError::MissingDatabaseUrl
    );
    assert_eq!(
        Config::init(Some("d".to_string()), None, None, Some("s".to_string())).unwrap_err(),
        ConfigError::MissingHost
    );
    assert_eq!(
        Config::init(Some("d".to_string()), None, Some("h".to_string()), None).unwrap_err(),
        ConfigError::MissingJwtSecret
    );
}

#[test]
fn field_errors_group_messages_by_field() {
    let mut errors = FieldErrors::new();
    assert!(errors.is_empty());
    errors.add_error("symbol", "must be present");
    errors.add_error("interval", "unknown interval");
    errors.add_error("symbol", "already exists");
    assert!(!errors.is_empty());

    let err = ApiErr::from_field_errors(errors);
    assert_eq!(err.status_code, 400);
    assert_eq!(err.message, "Unable to save record");
    assert!(err.field_errors.is_some());
}
