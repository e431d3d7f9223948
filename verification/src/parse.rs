//! Row parsing: splitting archive text into lines and fields, and reading
//! the numeric fields of a candle row.
//!
//! The row grammar is fixed-width comma-separated columns, 0-indexed:
//! open_time=0, open=1, high=2, low=3, close=4, volume=5 (6 and 7 unused),
//! num_trades=8, taker_volume=9. Empty lines (in particular the trailing one
//! at end of file) are skipped, not treated as malformed rows.

use vstd::prelude::*;

use crate::candle::{Candle, CandleView, Decimal};
use crate::error::IngestError;

verus! {

/// Whether a byte is an ASCII decimal digit.
pub open spec fn is_digit(b: u8) -> bool {
    48 <= b <= 57
}

/// Numeric value of an ASCII digit byte.
pub open spec fn digit_val(b: u8) -> nat
    recommends
        is_digit(b),
{
    (b - 48) as nat
}

/// Index of the first occurrence of `sep` in `s`, or `s.len()` if absent.
pub open spec fn find_byte(s: Seq<u8>, sep: u8) -> nat
    decreases s.len(),
{
    if s.len() == 0 {
        0
    } else if s[0] == sep {
        0
    } else {
        1 + find_byte(s.drop_first(), sep)
    }
}

proof fn lemma_find_byte(s: Seq<u8>, sep: u8)
    ensures
        find_byte(s, sep) <= s.len(),
        forall|j: int| 0 <= j < find_byte(s, sep) ==> s[j] != sep,
        find_byte(s, sep) < s.len() ==> s[find_byte(s, sep) as int] == sep,
    decreases s.len(),
{
    if s.len() != 0 && s[0] != sep {
        lemma_find_byte(s.drop_first(), sep);
        assert forall|j: int| 0 <= j < find_byte(s, sep) implies s[j] != sep by {
            if j > 0 {
                assert(s.drop_first()[j - 1] != sep);
            }
        }
    }
}

/// `find_byte` is pinned by its characterization: `k` is the first index
/// holding `sep`, or the length when no index holds it.
proof fn lemma_find_byte_is(s: Seq<u8>, sep: u8, k: int)
    requires
        0 <= k <= s.len(),
        forall|j: int| 0 <= j < k ==> s[j] != sep,
        k < s.len() ==> s[k] == sep,
    ensures
        find_byte(s, sep) == k,
    decreases s.len(),
{
    if s.len() != 0 && s[0] != sep {
        assert(k > 0);
        assert forall|j: int| 0 <= j < k - 1 implies s.drop_first()[j] != sep by {
            assert(s.drop_first()[j] == s[j + 1]);
        }
        if k < s.len() {
            assert(s.drop_first()[k - 1] == s[k]);
        }
        lemma_find_byte_is(s.drop_first(), sep, k - 1);
    }
}

/// The maximal runs of `s` between occurrences of `sep`, in order. An empty
/// `s` yields one empty segment; a trailing separator yields a trailing
/// empty segment.
pub open spec fn spec_split(s: Seq<u8>, sep: u8) -> Seq<Seq<u8>>
    decreases s.len(),
    via spec_split_decreases
{
    let i = find_byte(s, sep) as int;
    if i == s.len() {
        seq![s]
    } else {
        seq![s.subrange(0, i)] + spec_split(s.subrange(i + 1, s.len() as int), sep)
    }
}

#[via_fn]
proof fn spec_split_decreases(s: Seq<u8>, sep: u8) {
    lemma_find_byte(s, sep);
}

/// Splitting steps over the first separator: one segment comes off the
/// front, and the rest is the split of the suffix.
proof fn lemma_split_step(s: Seq<u8>, sep: u8, k: int)
    requires
        0 <= k < s.len(),
        forall|j: int| 0 <= j < k ==> s[j] != sep,
        s[k] == sep,
    ensures
        spec_split(s, sep) == seq![s.subrange(0, k)] + spec_split(
            s.subrange(k + 1, s.len() as int),
            sep,
        ),
{
    lemma_find_byte_is(s, sep, k);
}

/// A separator-free sequence is a single segment.
proof fn lemma_split_whole(s: Seq<u8>, sep: u8)
    requires
        forall|j: int| 0 <= j < s.len() ==> s[j] != sep,
    ensures
        spec_split(s, sep) == seq![s],
{
    lemma_find_byte_is(s, sep, s.len() as int);
}

/// Split `data` on `sep`, returning the segments in order.
pub fn split_bytes(data: &[u8], sep: u8) -> (r: Vec<Vec<u8>>)
    ensures
        r@.len() == spec_split(data@, sep).len(),
        forall|j: int| 0 <= j < r@.len() ==> r@[j]@ == spec_split(data@, sep)[j],
{
    let n = data.len();
    let mut r: Vec<Vec<u8>> = Vec::new();
    let mut cur: Vec<u8> = Vec::new();
    let mut seg_start: usize = 0;
    let mut i: usize = 0;
    proof {
        assert(data@.subrange(0, n as int) =~= data@);
        assert(r.deep_view() + spec_split(data@, sep) =~~= spec_split(data@, sep));
    }
    while i < n
        invariant
            n == data@.len(),
            0 <= seg_start <= i <= n,
            cur@ == data@.subrange(seg_start as int, i as int),
            forall|j: int| seg_start <= j < i ==> data@[j] != sep,
            spec_split(data@, sep) == r.deep_view() + spec_split(
                data@.subrange(seg_start as int, n as int),
                sep,
            ),
        decreases n - i,
    {
        let b = data[i];
        if b == sep {
            proof {
                let suffix = data@.subrange(seg_start as int, n as int);
                let k = i - seg_start;
                assert(suffix[k as int] == sep);
                assert forall|j: int| 0 <= j < k implies suffix[j] != sep by {
                    assert(suffix[j] == data@[seg_start + j]);
                }
                lemma_split_step(suffix, sep, k as int);
                assert(suffix.subrange(0, k as int) =~= cur@);
                assert(suffix.subrange(k + 1, suffix.len() as int) =~= data@.subrange(
                    i + 1,
                    n as int,
                ));
            }
            let ghost old_r = r.deep_view();
            let ghost cur_v = cur@;
            r.push(cur);
            proof {
                assert(r.deep_view() =~~= old_r + seq![cur_v]);
                assert((old_r + seq![cur_v]) + spec_split(data@.subrange(i + 1, n as int), sep)
                    =~= old_r + (seq![cur_v] + spec_split(data@.subrange(i + 1, n as int), sep)));
            }
            cur = Vec::new();
            seg_start = i + 1;
            proof {
                assert(cur@ =~= data@.subrange(seg_start as int, seg_start as int));
            }
        } else {
            cur.push(b);
            proof {
                assert(cur@ =~= data@.subrange(seg_start as int, i + 1));
            }
        }
        i = i + 1;
    }
    proof {
        let suffix = data@.subrange(seg_start as int, n as int);
        assert forall|j: int| 0 <= j < suffix.len() implies suffix[j] != sep by {
            assert(suffix[j] == data@[seg_start + j]);
        }
        lemma_split_whole(suffix, sep);
        assert(suffix =~= cur@);
    }
    let ghost old_r = r.deep_view();
    let ghost cur_v = cur@;
    r.push(cur);
    proof {
        assert(r.deep_view() =~~= old_r + seq![cur_v]);
        assert forall|j: int| 0 <= j < r@.len() implies r@[j]@ == spec_split(data@, sep)[j] by {
            assert(r.deep_view()[j] == r@[j].deep_view());
            assert(r@[j].deep_view() =~= r@[j]@);
        }
    }
    r
}

/// State of a left-to-right scan of a decimal literal: the digits read so
/// far as an integer, the count of digits after the dot, whether a dot was
/// seen, and how many digits were read.
pub ghost struct DecScan {
    pub mant: nat,
    pub scale: nat,
    pub seen_dot: bool,
    pub ndigits: nat,
}

/// Scan of the unsigned part of a decimal literal: digits with at most one
/// dot. `None` means a byte other than a digit or a first dot occurred.
pub open spec fn spec_scan_decimal(s: Seq<u8>) -> Option<DecScan>
    decreases s.len(),
{
    if s.len() == 0 {
        Some(DecScan { mant: 0, scale: 0, seen_dot: false, ndigits: 0 })
    } else {
        match spec_scan_decimal(s.drop_last()) {
            None => None,
            Some(st) => {
                let b = s.last();
                if is_digit(b) {
                    Some(
                        DecScan {
                            mant: st.mant * 10 + digit_val(b),
                            scale: if st.seen_dot {
                                st.scale + 1
                            } else {
                                0
                            },
                            seen_dot: st.seen_dot,
                            ndigits: st.ndigits + 1,
                        },
                    )
                } else if b == 46 && !st.seen_dot {
                    Some(DecScan { mant: st.mant, scale: 0, seen_dot: true, ndigits: st.ndigits })
                } else {
                    None
                }
            },
        }
    }
}

/// A prefix of a scannable sequence is scannable, with a mantissa no larger
/// than the whole sequence's.
proof fn lemma_scan_decimal_prefix(s: Seq<u8>, k: int)
    requires
        0 <= k <= s.len(),
        spec_scan_decimal(s) is Some,
    ensures
        spec_scan_decimal(s.subrange(0, k)) is Some,
        spec_scan_decimal(s.subrange(0, k)).unwrap().mant <= spec_scan_decimal(s).unwrap().mant,
    decreases s.len(),
{
    if k == s.len() {
        assert(s.subrange(0, k) =~= s);
    } else {
        assert(s.drop_last() =~= s.subrange(0, s.len() - 1));
        lemma_scan_decimal_prefix(s.drop_last(), k);
        assert(s.drop_last().subrange(0, k) =~= s.subrange(0, k));
    }
}

/// A parsed decimal field: optional leading minus, then digits with at most
/// one dot and at least one digit, whose integer image fits the mantissa.
pub open spec fn spec_parse_decimal(s: Seq<u8>) -> Option<Decimal> {
    let neg = s.len() > 0 && s[0] == 45;
    let body = if neg {
        s.drop_first()
    } else {
        s
    };
    match spec_scan_decimal(body) {
        None => None,
        Some(st) => if st.ndigits >= 1 && st.mant <= u64::MAX && st.scale <= u32::MAX {
            Some(Decimal { neg, mant: st.mant as u64, scale: st.scale as u32 })
        } else {
            None
        },
    }
}

/// Parse one decimal field of a row.
pub fn parse_decimal(s: &[u8]) -> (r: Option<Decimal>)
    ensures
        r == spec_parse_decimal(s@),
{
    let n = s.len();
    let neg = n > 0 && s[0] == 45;
    let start: usize = if neg {
        1
    } else {
        0
    };
    let ghost body = if neg {
        s@.drop_first()
    } else {
        s@
    };
    proof {
        assert(body =~= s@.subrange(start as int, n as int));
    }
    let mut mant: u64 = 0;
    let mut scale: usize = 0;
    let mut seen_dot = false;
    let mut ndigits: usize = 0;
    let mut i: usize = start;
    while i < n
        invariant
            n == s@.len(),
            start <= i <= n,
            body == s@.subrange(start as int, n as int),
            body == (if s@.len() > 0 && s@[0] == 45 {
                s@.drop_first()
            } else {
                s@
            }),
            scale <= i,
            ndigits <= i,
            spec_scan_decimal(body.subrange(0, i - start)) == Some(
                DecScan {
                    mant: mant as nat,
                    scale: scale as nat,
                    seen_dot,
                    ndigits: ndigits as nat,
                },
            ),
        decreases n - i,
    {
        let ghost prefix = body.subrange(0, i - start);
        let ghost prefix1 = body.subrange(0, i + 1 - start);
        proof {
            assert(prefix1.drop_last() =~= prefix);
            assert(prefix1.last() == s@[i as int]);
        }
        let b = s[i];
        if 48 <= b && b <= 57 {
            let d = (b - 48) as u64;
            if mant > u64::MAX / 10 || mant * 10 > u64::MAX - d {
                proof {
                    // The scan of the full body, if it succeeds at all, has a
                    // mantissa at least as large as this prefix's, which
                    // already exceeds the mantissa bound.
                    assert((mant as nat) * 10 + digit_val(b) > u64::MAX);
                    if spec_scan_decimal(body) is Some {
                        lemma_scan_decimal_prefix(body, i + 1 - start);
                        assert(spec_scan_decimal(prefix1).unwrap().mant == (mant as nat) * 10
                            + digit_val(b));
                        assert(spec_scan_decimal(body).unwrap().mant > u64::MAX);
                    }
                    assert(spec_parse_decimal(s@) is None);
                }
                return None;
            }
            mant = mant * 10 + d;
            if seen_dot {
                scale = scale + 1;
            } else {
                scale = 0;
            }
            ndigits = ndigits + 1;
        } else if b == 46 && !seen_dot {
            seen_dot = true;
            scale = 0;
        } else {
            proof {
                // The scan rejects this byte, so every extension of the
                // prefix, the full body included, fails to scan.
                assert(spec_scan_decimal(prefix1) is None);
                if spec_scan_decimal(body) is Some {
                    lemma_scan_decimal_prefix(body, i + 1 - start);
                }
                assert(spec_scan_decimal(body) is None);
                assert(spec_parse_decimal(s@) is None);
            }
            return None;
        }
        i = i + 1;
    }
    proof {
        assert(body.subrange(0, n - start) =~= body);
    }
    if ndigits >= 1 {
        if scale <= u32::MAX as usize {
            Some(Decimal { neg, mant, scale: scale as u32 })
        } else {
            None
        }
    } else {
        None
    }
}

/// Scan of an unsigned run of digits: its integer value, or `None` on any
/// non-digit byte.
pub open spec fn spec_scan_digits(s: Seq<u8>) -> Option<nat>
    decreases s.len(),
{
    if s.len() == 0 {
        Some(0)
    } else {
        match spec_scan_digits(s.drop_last()) {
            None => None,
            Some(v) => if is_digit(s.last()) {
                Some(v * 10 + digit_val(s.last()))
            } else {
                None
            },
        }
    }
}

/// A prefix of a digit run is a digit run with a value no larger than the
/// whole run's.
proof fn lemma_scan_digits_prefix(s: Seq<u8>, k: int)
    requires
        0 <= k <= s.len(),
        spec_scan_digits(s) is Some,
    ensures
        spec_scan_digits(s.subrange(0, k)) is Some,
        spec_scan_digits(s.subrange(0, k)).unwrap() <= spec_scan_digits(s).unwrap(),
    decreases s.len(),
{
    if k == s.len() {
        assert(s.subrange(0, k) =~= s);
    } else {
        assert(s.drop_last() =~= s.subrange(0, s.len() - 1));
        lemma_scan_digits_prefix(s.drop_last(), k);
        assert(s.drop_last().subrange(0, k) =~= s.subrange(0, k));
    }
}

/// A parsed signed integer field: optional leading minus, then at least one
/// digit, with the value in the range of `i64`.
pub open spec fn spec_parse_i64(s: Seq<u8>) -> Option<i64> {
    let neg = s.len() > 0 && s[0] == 45;
    let body = if neg {
        s.drop_first()
    } else {
        s
    };
    if body.len() == 0 {
        None
    } else {
        match spec_scan_digits(body) {
            None => None,
            Some(v) => if neg && v <= 0x8000_0000_0000_0000 {
                Some((0 - v) as i64)
            } else if !neg && v <= i64::MAX {
                Some(v as i64)
            } else {
                None
            },
        }
    }
}

/// Parse one signed integer field of a row.
pub fn parse_i64(s: &[u8]) -> (r: Option<i64>)
    ensures
        r == spec_parse_i64(s@),
{
    let n = s.len();
    let neg = n > 0 && s[0] == 45;
    let start: usize = if neg {
        1
    } else {
        0
    };
    let ghost body = if neg {
        s@.drop_first()
    } else {
        s@
    };
    proof {
        assert(body =~= s@.subrange(start as int, n as int));
    }
    if n == start {
        return None;
    }
    let mut mag: u64 = 0;
    let mut i: usize = start;
    while i < n
        invariant
            n == s@.len(),
            start <= i <= n,
            body == s@.subrange(start as int, n as int),
            body == (if s@.len() > 0 && s@[0] == 45 {
                s@.drop_first()
            } else {
                s@
            }),
            body.len() > 0,
            spec_scan_digits(body.subrange(0, i - start)) == Some(mag as nat),
        decreases n - i,
    {
        let ghost prefix = body.subrange(0, i - start);
        let ghost prefix1 = body.subrange(0, i + 1 - start);
        proof {
            assert(prefix1.drop_last() =~= prefix);
            assert(prefix1.last() == s@[i as int]);
        }
        let b = s[i];
        if 48 <= b && b <= 57 {
            let d = (b - 48) as u64;
            if mag > u64::MAX / 10 || mag * 10 > u64::MAX - d {
                proof {
                    // The full run's value, if the run scans at all, is at
                    // least this prefix's, which already exceeds `i64`'s
                    // range.
                    assert((mag as nat) * 10 + digit_val(b) > u64::MAX);
                    if spec_scan_digits(body) is Some {
                        lemma_scan_digits_prefix(body, i + 1 - start);
                        assert(spec_scan_digits(prefix1).unwrap() == (mag as nat) * 10 + digit_val(
                            b,
                        ));
                        assert(spec_scan_digits(body).unwrap() > u64::MAX);
                    }
                    assert(spec_parse_i64(s@) is None);
                }
                return None;
            }
            mag = mag * 10 + d;
        } else {
            proof {
                assert(spec_scan_digits(prefix1) is None);
                if spec_scan_digits(body) is Some {
                    lemma_scan_digits_prefix(body, i + 1 - start);
                }
                assert(spec_scan_digits(body) is None);
                assert(spec_parse_i64(s@) is None);
            }
            return None;
        }
        i = i + 1;
    }
    proof {
        assert(body.subrange(0, n - start) =~= body);
    }
    if neg {
        if mag <= 0x8000_0000_0000_0000 {
            if mag == 0x8000_0000_0000_0000 {
                Some(i64::MIN)
            } else {
                Some(-(mag as i64))
            }
        } else {
            None
        }
    } else {
        if mag <= i64::MAX as u64 {
            Some(mag as i64)
        } else {
            None
        }
    }
}

/// A parsed integer field narrowed to the range of `i32`.
pub open spec fn spec_parse_i32(s: Seq<u8>) -> Option<i32> {
    match spec_parse_i64(s) {
        None => None,
        Some(v) => if i32::MIN <= v <= i32::MAX {
            Some(v as i32)
        } else {
            None
        },
    }
}

/// Parse one integer field of a row into an `i32`.
pub fn parse_i32(s: &[u8]) -> (r: Option<i32>)
    ensures
        r == spec_parse_i32(s@),
{
    match parse_i64(s) {
        None => None,
        Some(v) => if i32::MIN as i64 <= v && v <= i32::MAX as i64 {
            Some(v as i32)
        } else {
            None
        },
    }
}

/// The candle a row denotes, if the row is well formed: at least ten
/// comma-separated fields, with open_time at column 0, prices at columns 1
/// through 5, num_trades at column 8 and taker_volume at column 9.
pub open spec fn spec_parse_row(symbol: Seq<char>, interval: Seq<char>, line: Seq<u8>) -> Option<
    CandleView,
> {
    let fields = spec_split(line, 44);
    if fields.len() < 10 {
        None
    } else {
        let open_time = spec_parse_i64(fields[0]);
        let open = spec_parse_decimal(fields[1]);
        let high = spec_parse_decimal(fields[2]);
        let low = spec_parse_decimal(fields[3]);
        let close = spec_parse_decimal(fields[4]);
        let volume = spec_parse_decimal(fields[5]);
        let num_trades = spec_parse_i32(fields[8]);
        let taker_volume = spec_parse_decimal(fields[9]);
        if open_time is Some && open is Some && high is Some && low is Some && close is Some
            && volume is Some && num_trades is Some && taker_volume is Some {
            Some(
                CandleView {
                    symbol,
                    interval,
                    open_time: open_time.unwrap(),
                    open: open.unwrap(),
                    high: high.unwrap(),
                    low: low.unwrap(),
                    close: close.unwrap(),
                    volume: volume.unwrap(),
                    num_trades: num_trades.unwrap(),
                    taker_volume: taker_volume.unwrap(),
                },
            )
        } else {
            None
        }
    }
}

/// Parse one row into a candle for the given partition, or `None` when the
/// row is malformed.
pub fn parse_row(symbol: &String, interval: &String, line: &[u8]) -> (r: Option<Candle>)
    ensures
        r is Some <==> spec_parse_row(symbol@, interval@, line@) is Some,
        r is Some ==> r.unwrap()@ == spec_parse_row(symbol@, interval@, line@).unwrap(),
{
    let fields = split_bytes(line, 44);
    if fields.len() < 10 {
        return None;
    }
    let open_time = match parse_i64(fields[0].as_slice()) {
        Some(v) => v,
        None => {
            return None;
        },
    };
    let open = match parse_decimal(fields[1].as_slice()) {
        Some(v) => v,
        None => {
            return None;
        },
    };
    let high = match parse_decimal(fields[2].as_slice()) {
        Some(v) => v,
        None => {
            return None;
        },
    };
    let low = match parse_decimal(fields[3].as_slice()) {
        Some(v) => v,
        None => {
            return None;
        },
    };
    let close = match parse_decimal(fields[4].as_slice()) {
        Some(v) => v,
        None => {
            return None;
        },
    };
    let volume = match parse_decimal(fields[5].as_slice()) {
        Some(v) => v,
        None => {
            return None;
        },
    };
    let num_trades = match parse_i32(fields[8].as_slice()) {
        Some(v) => v,
        None => {
            return None;
        },
    };
    let taker_volume = match parse_decimal(fields[9].as_slice()) {
        Some(v) => v,
        None => {
            return None;
        },
    };
    Some(
        Candle {
            symbol: symbol.clone(),
            interval: interval.clone(),
            open_time,
            open,
            high,
            low,
            close,
            volume,
            num_trades,
            taker_volume,
        },
    )
}

/// The candles a sequence of lines denotes, in line order. Empty lines are
/// skipped; any malformed line fails the whole parse.
pub open spec fn spec_parse_lines(
    symbol: Seq<char>,
    interval: Seq<char>,
    lines: Seq<Seq<u8>>,
) -> Option<Seq<CandleView>>
    decreases lines.len(),
{
    if lines.len() == 0 {
        Some(seq![])
    } else {
        match spec_parse_lines(symbol, interval, lines.drop_last()) {
            None => None,
            Some(acc) => {
                let line = lines.last();
                if line.len() == 0 {
                    Some(acc)
                } else {
                    match spec_parse_row(symbol, interval, line) {
                        None => None,
                        Some(c) => Some(acc.push(c)),
                    }
                }
            },
        }
    }
}

/// A prefix of a parseable line sequence is parseable.
proof fn lemma_parse_lines_prefix(
    symbol: Seq<char>,
    interval: Seq<char>,
    lines: Seq<Seq<u8>>,
    k: int,
)
    requires
        0 <= k <= lines.len(),
        spec_parse_lines(symbol, interval, lines) is Some,
    ensures
        spec_parse_lines(symbol, interval, lines.subrange(0, k)) is Some,
    decreases lines.len(),
{
    if k == lines.len() {
        assert(lines.subrange(0, k) =~= lines);
    } else {
        assert(lines.drop_last() =~= lines.subrange(0, lines.len() - 1));
        lemma_parse_lines_prefix(symbol, interval, lines.drop_last(), k);
        assert(lines.drop_last().subrange(0, k) =~= lines.subrange(0, k));
    }
}

/// The ordered sequence of candles an archive's row file denotes: its lines
/// in file order, with empty lines skipped, each remaining line read as one
/// row.
pub open spec fn spec_parse_csv(symbol: Seq<char>, interval: Seq<char>, data: Seq<u8>) -> Option<
    Seq<CandleView>,
> {
    spec_parse_lines(symbol, interval, spec_split(data, 10))
}

/// Parse a whole extracted row file into the candles of one partition.
///
/// The result is a function of the inputs alone: the same bytes always
/// yield the same ordered candle sequence, and a single malformed row fails
/// the cell with `RowMalformed`.
pub fn parse_csv(symbol: &String, interval: &String, data: &[u8]) -> (r: Result<
    Vec<Candle>,
    IngestError,
>)
    ensures
        r is Ok <==> spec_parse_csv(symbol@, interval@, data@) is Some,
        r is Ok ==> r->Ok_0.deep_view() == spec_parse_csv(symbol@, interval@, data@).unwrap(),
        r is Err ==> r->Err_0 == IngestError::RowMalformed,
{
    let ghost slines = spec_split(data@, 10);
    let lines = split_bytes(data, 10);
    let n = lines.len();
    let mut out: Vec<Candle> = Vec::new();
    let mut i: usize = 0;
    proof {
        assert(slines.subrange(0, 0) =~= Seq::<Seq<u8>>::empty());
        assert(out.deep_view() =~= Seq::<CandleView>::empty());
    }
    while i < n
        invariant
            slines == spec_split(data@, 10),
            n == lines@.len(),
            lines@.len() == slines.len(),
            forall|j: int| 0 <= j < lines@.len() ==> lines@[j]@ == slines[j],
            0 <= i <= n,
            spec_parse_lines(symbol@, interval@, slines.subrange(0, i as int)) == Some(
                out.deep_view(),
            ),
        decreases n - i,
    {
        let ghost pre = slines.subrange(0, i as int);
        let ghost pre1 = slines.subrange(0, i + 1);
        proof {
            assert(pre1.drop_last() =~= pre);
            assert(pre1.last() == slines[i as int]);
        }
        if lines[i].len() == 0 {
            i = i + 1;
            continue ;
        }
        match parse_row(symbol, interval, lines[i].as_slice()) {
            Some(c) => {
                let ghost old_out = out.deep_view();
                let ghost cv = c@;
                out.push(c);
                proof {
                    assert(out.deep_view() =~~= old_out.push(cv));
                }
            },
            None => {
                proof {
                    if spec_parse_lines(symbol@, interval@, slines) is Some {
                        lemma_parse_lines_prefix(symbol@, interval@, slines, i + 1);
                    }
                    assert(spec_parse_lines(symbol@, interval@, pre1) is None);
                    assert(spec_parse_csv(symbol@, interval@, data@) is None);
                }
                return Err(IngestError::RowMalformed);
            },
        }
        i = i + 1;
    }
    proof {
        assert(slines.subrange(0, n as int) =~= slines);
    }
    Ok(out)
}

/// Parsing is deterministic: for fixed archive bytes and a fixed partition,
/// the denoted candle sequence is always the same, in the same order.
pub proof fn lemma_parse_deterministic(
    symbol: Seq<char>,
    interval: Seq<char>,
    d1: Seq<u8>,
    d2: Seq<u8>,
)
    requires
        d1 == d2,
    ensures
        spec_parse_csv(symbol, interval, d1) == spec_parse_csv(symbol, interval, d2),
{
}

} // verus!
