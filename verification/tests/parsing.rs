use klines::{parse_csv, parse_decimal, parse_i32, parse_i64, parse_row, split_bytes};
use klines::{Candle, Decimal, IngestError};

fn dec(neg: bool, mant: u64, scale: u32) -> Decimal {
    Decimal::new(neg, mant, scale)
}

#[test]
fn splits_on_separator() {
    let segs = split_bytes(b"a,bc,,d", b',');
    assert_eq!(segs.len(), 4);
    assert_eq!(segs[0], b"a".to_vec());
    assert_eq!(segs[1], b"bc".to_vec());
    assert_eq!(segs[2], b"".to_vec());
    assert_eq!(segs[3], b"d".to_vec());
}

#[test]
fn split_of_empty_input_is_one_empty_segment() {
    let segs = split_bytes(b"", b',');
    assert_eq!(segs.len(), 1);
    assert_eq!(segs[0], b"".to_vec());
}

#[test]
fn decimal_plain_and_fractional() {
    assert_eq!(parse_decimal(b"100.0"), Some(dec(false, 1000, 1)));
    assert_eq!(parse_decimal(b"28923.63000000"), Some(dec(false, 2892363000000, 8)));
    assert_eq!(parse_decimal(b"0"), Some(dec(false, 0, 0)));
    assert_eq!(parse_decimal(b"-3.5"), Some(dec(true, 35, 1)));
    assert_eq!(parse_decimal(b".5"), Some(dec(false, 5, 1)));
    assert_eq!(parse_decimal(b"100."), Some(dec(false, 100, 0)));
}

#[test]
fn decimal_rejects_malformed_fields() {
    assert_eq!(parse_decimal(b""), None);
    assert_eq!(parse_decimal(b"-"), None);
    assert_eq!(parse_decimal(b"."), None);
    assert_eq!(parse_decimal(b"1.2.3"), None);
    assert_eq!(parse_decimal(b"12x"), None);
    assert_eq!(parse_decimal(b" 1"), None);
    // 20 nines exceed the 64-bit mantissa.
    assert_eq!(parse_decimal(b"99999999999999999999"), None);
}

#[test]
fn integer_bounds() {
    assert_eq!(parse_i64(b"1609459200000"), Some(1609459200000));
    assert_eq!(parse_i64(b"-42"), Some(-42));
    assert_eq!(parse_i64(b"9223372036854775807"), Some(i64::MAX));
    assert_eq!(parse_i64(b"9223372036854775808"), None);
    assert_eq!(parse_i64(b"-9223372036854775808"), Some(i64::MIN));
    assert_eq!(parse_i64(b"-9223372036854775809"), None);
    assert_eq!(parse_i64(b""), None);
    assert_eq!(parse_i64(b"1.0"), None);
    assert_eq!(parse_i32(b"500"), Some(500));
    assert_eq!(parse_i32(b"2147483647"), Some(i32::MAX));
    assert_eq!(parse_i32(b"2147483648"), None);
}

#[test]
fn row_maps_columns_to_candle_fields() {
    let symbol = String::from("BTCUSDT");
    let interval = String::from("1h");
    let row = b"1609459200000,100.0,110.0,90.0,105.0,1000.0,x,x,500,200.0";
    let candle = parse_row(&symbol, &interval, row).expect("row is well formed");
    assert_eq!(candle.symbol, "BTCUSDT");
    assert_eq!(candle.interval, "1h");
    assert_eq!(candle.open_time, 1609459200000);
    assert_eq!(candle.open, dec(false, 1000, 1));
    assert_eq!(candle.high, dec(false, 1100, 1));
    assert_eq!(candle.low, dec(false, 900, 1));
    assert_eq!(candle.close, dec(false, 1050, 1));
    assert_eq!(candle.volume, dec(false, 10000, 1));
    assert_eq!(candle.num_trades, 500);
    assert_eq!(candle.taker_volume, dec(false, 2000, 1));
}

#[test]
fn row_with_too_few_fields_is_malformed() {
    let symbol = String::from("BTCUSDT");
    let interval = String::from("1h");
    assert!(parse_row(&symbol, &interval, b"1,2,3,4,5,6,7,8,9").is_none());
}

#[test]
fn row_with_bad_numeric_field_is_malformed() {
    let symbol = String::from("BTCUSDT");
    let interval = String::from("1h");
    let row = b"1609459200000,100.0,110.0,90.0,1o5.0,1000.0,x,x,500,200.0";
    assert!(parse_row(&symbol, &interval, row).is_none());
}

fn two_row_file() -> Vec<u8> {
    b"1609459200000,100.0,110.0,90.0,105.0,1000.0,x,x,500,200.0\n\
1609462800000,105.0,115.0,95.0,110.0,1100.0,x,x,600,210.0\n"
        .to_vec()
}

#[test]
fn csv_keeps_file_order_and_skips_trailing_empty_line() {
    let symbol = String::from("BTCUSDT");
    let interval = String::from("1h");
    let data = two_row_file();
    let candles = parse_csv(&symbol, &interval, &data).expect("file is well formed");
    assert_eq!(candles.len(), 2);
    assert_eq!(candles[0].open_time, 1609459200000);
    assert_eq!(candles[1].open_time, 1609462800000);
    assert_eq!(candles[1].num_trades, 600);
}

#[test]
fn csv_parse_is_deterministic() {
    let symbol = String::from("ETHUSDT");
    let interval = String::from("4h");
    let data = two_row_file();
    let first: Vec<Candle> = parse_csv(&symbol, &interval, &data).expect("well formed");
    let second: Vec<Candle> = parse_csv(&symbol, &interval, &data).expect("well formed");
    assert_eq!(first, second);
}

#[test]
fn csv_with_one_malformed_row_fails_with_row_malformed() {
    let symbol = String::from("BTCUSDT");
    let interval = String::from("1h");
    let data = b"1609459200000,100.0,110.0,90.0,105.0,1000.0,x,x,500,200.0\nnot a row\n";
    assert_eq!(
        parse_csv(&symbol, &interval, data.as_slice()),
        Err(IngestError::RowMalformed)
    );
}

#[test]
fn empty_file_parses_to_no_candles() {
    let symbol = String::from("BTCUSDT");
    let interval = String::from("1h");
    let candles = parse_csv(&symbol, &interval, b"").expect("empty file is fine");
    assert!(candles.is_empty());
}
