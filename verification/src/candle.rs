//! The candle record and the exact decimal type its price fields use.

use vstd::prelude::*;

verus! {

/// An exact decimal number as it stands in an archive row: the numeric value
/// is `mant / 10^scale`, negated when `neg` is set. Keeping the digits exact
/// avoids rounding the archive text to machine floating point inside the
/// library; the boundary converts where storage wants a float.
#[derive(Clone, Copy, Debug, PartialEq, Eq, Structural)]
pub struct Decimal {
    pub neg: bool,
    pub mant: u64,
    pub scale: u32,
}

impl Decimal {
    /// The decimal with value `mant / 10^scale`.
    pub fn new(neg: bool, mant: u64, scale: u32) -> (d: Decimal)
        ensures
            d == (Decimal { neg, mant, scale }),
    {
        Decimal { neg, mant, scale }
    }
}

/// One OHLCV observation, keyed by (symbol, interval, open_time).
/// Candles are immutable once persisted; re-insertion of an existing key is
/// a no-op.
#[derive(Debug, PartialEq)]
pub struct Candle {
    pub symbol: String,
    pub interval: String,
    pub open_time: i64,
    pub open: Decimal,
    pub high: Decimal,
    pub low: Decimal,
    pub close: Decimal,
    pub volume: Decimal,
    pub num_trades: i32,
    pub taker_volume: Decimal,
}

/// Mathematical image of a candle: strings become character sequences.
pub ghost struct CandleView {
    pub symbol: Seq<char>,
    pub interval: Seq<char>,
    pub open_time: i64,
    pub open: Decimal,
    pub high: Decimal,
    pub low: Decimal,
    pub close: Decimal,
    pub volume: Decimal,
    pub num_trades: i32,
    pub taker_volume: Decimal,
}

impl View for Candle {
    type V = CandleView;

    open spec fn view(&self) -> CandleView {
        CandleView {
            symbol: self.symbol@,
            interval: self.interval@,
            open_time: self.open_time,
            open: self.open,
            high: self.high,
            low: self.low,
            close: self.close,
            volume: self.volume,
            num_trades: self.num_trades,
            taker_volume: self.taker_volume,
        }
    }
}

impl DeepView for Candle {
    type V = CandleView;

    open spec fn deep_view(&self) -> CandleView {
        self.view()
    }
}

impl Clone for Candle {
    /// A clone denotes the same candle.
    fn clone(&self) -> (r: Candle)
        ensures
            r@ == self@,
    {
        Candle {
            symbol: self.symbol.clone(),
            interval: self.interval.clone(),
            open_time: self.open_time,
            open: self.open,
            high: self.high,
            low: self.low,
            close: self.close,
            volume: self.volume,
            num_trades: self.num_trades,
            taker_volume: self.taker_volume,
        }
    }
}

/// The storage key of a candle: the triple that is globally unique in the
/// store.
pub open spec fn candle_key(c: CandleView) -> (Seq<char>, Seq<char>, i64) {
    (c.symbol, c.interval, c.open_time)
}

impl Candle {
    /// Whether `self` and `other` name the same storage key.
    pub fn same_key(&self, other: &Candle) -> (r: bool)
        ensures
            r == (candle_key(self@) == candle_key(other@)),
    {
        self.symbol == other.symbol && self.interval == other.interval
            && self.open_time == other.open_time
    }
}

} // verus!
