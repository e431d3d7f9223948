//! Verified core of a historical OHLCV (candlestick) ingestion pipeline.
//!
//! The library covers the decision logic of the pipeline: enumerating the
//! (symbol, interval, year, month) work matrix, locating remote archives and
//! local cache paths, classifying fetch outcomes, parsing archive rows into
//! candle records, loading batches idempotently, and driving the per-cell
//! state machine under a bounded fetch concurrency cap. The surrounding
//! binary performs the network, file and database I/O and feeds plain values
//! into these functions.

mod candle;
mod config;
mod error;
mod fetch;
mod locator;
mod orchestrator;
mod parse;
mod response;
mod store;
mod symbol;

pub use candle::Candle;
pub use candle::CandleView;
pub use candle::Decimal;
pub use candle::candle_key;

pub use config::Config;
pub use config::ConfigError;

pub use error::IngestError;

pub use fetch::FetchOutcome;
pub use fetch::FetchPlan;
pub use fetch::classify_response;
pub use fetch::plan_fetch;
pub use fetch::response_action;
pub use fetch::spec_after_status;
pub use fetch::spec_classify_response;
pub use fetch::spec_is_success;
pub use fetch::spec_writes_file;

pub use locator::ArchiveLocation;
pub use locator::Cell;
pub use locator::CellView;
pub use locator::INTERVAL_COUNT;
pub use locator::dec_rep;
pub use locator::digit_char;
pub use locator::entry_name;
pub use locator::enumerate_cells;
pub use locator::interval_name;
pub use locator::locate;
pub use locator::spec_archive_url;
pub use locator::spec_cache_path;
pub use locator::spec_cell_at;
pub use locator::spec_entry_name;
pub use locator::spec_interval;
pub use locator::two_digit;
pub use locator::u32_dec;
pub use locator::u32_two_digit;

pub use orchestrator::CellResult;
pub use orchestrator::CellState;
pub use orchestrator::Run;
pub use orchestrator::RunView;
pub use orchestrator::count_fetching;
pub use orchestrator::lemma_bounded_fetches;
pub use orchestrator::lemma_failure_isolated;
pub use orchestrator::lemma_not_found_terminal;
pub use orchestrator::run_wf;
pub use orchestrator::spec_after_fetch;

pub use parse::lemma_parse_deterministic;
pub use parse::parse_csv;
pub use parse::parse_decimal;
pub use parse::parse_i32;
pub use parse::parse_i64;
pub use parse::parse_row;
pub use parse::spec_parse_csv;
pub use parse::spec_parse_decimal;
pub use parse::spec_parse_i32;
pub use parse::spec_parse_i64;
pub use parse::spec_parse_lines;
pub use parse::spec_parse_row;
pub use parse::spec_split;
pub use parse::split_bytes;

pub use response::ApiErr;
pub use response::ApiResponse;
pub use response::FieldErrors;
pub use response::spec_field_index;
pub use response::spec_has_field;
pub use response::unique_fields;

pub use store::CandleStore;
pub use store::ingest_cell;
pub use store::lemma_first_write_wins;
pub use store::lemma_load_idempotent;
pub use store::spec_contains_key;
pub use store::spec_load;
pub use store::spec_load_count;
pub use store::unique_keys;

pub use symbol::Symbol;
pub use symbol::SymbolView;
pub use symbol::is_benign_duplicate;
pub use symbol::spec_is_trading;
pub use symbol::spec_trading;
