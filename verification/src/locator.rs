//! The archive locator: a pure mapping from a work cell
//! (symbol, interval, year, month) to its remote URL, its local cache path
//! and its embedded row file name, and the enumeration of the full work
//! matrix in a stable order.

use vstd::prelude::*;

verus! {

/// The number of intervals in the fixed universe.
pub const INTERVAL_COUNT: usize = 9;

/// The character of one decimal digit.
pub open spec fn digit_char(d: nat) -> char {
    if d == 0 {
        '0'
    } else if d == 1 {
        '1'
    } else if d == 2 {
        '2'
    } else if d == 3 {
        '3'
    } else if d == 4 {
        '4'
    } else if d == 5 {
        '5'
    } else if d == 6 {
        '6'
    } else if d == 7 {
        '7'
    } else if d == 8 {
        '8'
    } else {
        '9'
    }
}

/// The decimal rendering of a number, most significant digit first.
pub open spec fn dec_rep(n: nat) -> Seq<char>
    decreases n,
{
    if n < 10 {
        seq![digit_char(n)]
    } else {
        dec_rep(n / 10).push(digit_char(n % 10))
    }
}

/// The decimal rendering padded to at least two digits with a leading zero,
/// as months are written in archive names.
pub open spec fn two_digit(n: nat) -> Seq<char> {
    if n < 10 {
        seq!['0'] + dec_rep(n)
    } else {
        dec_rep(n)
    }
}

/// The one-character string of a decimal digit.
fn digit_str(d: u32) -> (r: &'static str)
    requires
        d < 10,
    ensures
        r@ == seq![digit_char(d as nat)],
{
    let r: &'static str = if d == 0 {
        "0"
    } else if d == 1 {
        "1"
    } else if d == 2 {
        "2"
    } else if d == 3 {
        "3"
    } else if d == 4 {
        "4"
    } else if d == 5 {
        "5"
    } else if d == 6 {
        "6"
    } else if d == 7 {
        "7"
    } else if d == 8 {
        "8"
    } else {
        "9"
    };
    proof {
        reveal_strlit("0");
        reveal_strlit("1");
        reveal_strlit("2");
        reveal_strlit("3");
        reveal_strlit("4");
        reveal_strlit("5");
        reveal_strlit("6");
        reveal_strlit("7");
        reveal_strlit("8");
        reveal_strlit("9");
        assert(r@ =~= seq![digit_char(d as nat)]);
    }
    r
}

/// Render a number in decimal.
pub fn u32_dec(n: u32) -> (s: String)
    ensures
        s@ == dec_rep(n as nat),
    decreases n,
{
    if n < 10 {
        String::from_str(digit_str(n))
    } else {
        let mut s = u32_dec(n / 10);
        s.append(digit_str(n % 10));
        proof {
            assert(s@ =~= dec_rep((n / 10) as nat).push(digit_char((n % 10) as nat)));
        }
        s
    }
}

/// Render a number in decimal, padded to at least two digits.
pub fn u32_two_digit(n: u32) -> (s: String)
    ensures
        s@ == two_digit(n as nat),
{
    if n < 10 {
        let mut s = String::from_str("0");
        s.append(digit_str(n));
        proof {
            reveal_strlit("0");
            assert(s@ =~= two_digit(n as nat));
        }
        s
    } else {
        u32_dec(n)
    }
}

/// The interval name at an index of the fixed interval table.
pub open spec fn spec_interval(i: int) -> Seq<char> {
    if i == 0 {
        "15m"@
    } else if i == 1 {
        "30m"@
    } else if i == 2 {
        "1h"@
    } else if i == 3 {
        "2h"@
    } else if i == 4 {
        "4h"@
    } else if i == 5 {
        "12h"@
    } else if i == 6 {
        "1d"@
    } else if i == 7 {
        "1w"@
    } else {
        "1mo"@
    }
}

/// The interval table entry at an index: 15m, 30m, 1h, 2h, 4h, 12h, 1d, 1w,
/// 1mo.
pub fn interval_name(i: usize) -> (r: &'static str)
    requires
        i < INTERVAL_COUNT,
    ensures
        r@ == spec_interval(i as int),
{
    if i == 0 {
        "15m"
    } else if i == 1 {
        "30m"
    } else if i == 2 {
        "1h"
    } else if i == 3 {
        "2h"
    } else if i == 4 {
        "4h"
    } else if i == 5 {
        "12h"
    } else if i == 6 {
        "1d"
    } else if i == 7 {
        "1w"
    } else {
        "1mo"
    }
}

/// One unit of work: the archive of one symbol, interval, year and month.
pub struct Cell {
    pub symbol: String,
    pub interval: String,
    pub year: u32,
    pub month: u32,
}

/// Mathematical image of a cell.
pub ghost struct CellView {
    pub symbol: Seq<char>,
    pub interval: Seq<char>,
    pub year: u32,
    pub month: u32,
}

impl View for Cell {
    type V = CellView;

    open spec fn view(&self) -> CellView {
        CellView {
            symbol: self.symbol@,
            interval: self.interval@,
            year: self.year,
            month: self.month,
        }
    }
}

impl DeepView for Cell {
    type V = CellView;

    open spec fn deep_view(&self) -> CellView {
        self.view()
    }
}

impl Clone for Cell {
    /// A clone denotes the same cell.
    fn clone(&self) -> (r: Cell)
        ensures
            r@ == self@,
    {
        Cell {
            symbol: self.symbol.clone(),
            interval: self.interval.clone(),
            year: self.year,
            month: self.month,
        }
    }
}

/// The remote URL of a cell's archive:
/// `{base}/{symbol}/{interval}/{symbol}-{interval}-{year}-{month:02}.zip`.
pub open spec fn spec_archive_url(
    symbol: Seq<char>,
    interval: Seq<char>,
    year: nat,
    month: nat,
) -> Seq<char> {
    "https://data.binance.vision/data/spot/monthly/klines/"@ + symbol + "/"@ + interval + "/"@
        + symbol + "-"@ + interval + "-"@ + dec_rep(year) + "-"@ + two_digit(month) + ".zip"@
}

/// The local cache path of a cell's archive:
/// `{cache_root}/{symbol}/{interval}/{year}-{month:02}.zip`. No two cells
/// share a path, so a cell never observes another cell's file.
pub open spec fn spec_cache_path(
    symbol: Seq<char>,
    interval: Seq<char>,
    year: nat,
    month: nat,
) -> Seq<char> {
    "history/"@ + symbol + "/"@ + interval + "/"@ + dec_rep(year) + "-"@ + two_digit(month)
        + ".zip"@
}

/// The name of the row file embedded in a cell's archive:
/// `{symbol}-{interval}-{year}-{month:02}.csv`.
pub open spec fn spec_entry_name(
    symbol: Seq<char>,
    interval: Seq<char>,
    year: nat,
    month: nat,
) -> Seq<char> {
    symbol + "-"@ + interval + "-"@ + dec_rep(year) + "-"@ + two_digit(month) + ".csv"@
}

/// Where a cell's archive lives remotely and in the local cache.
pub struct ArchiveLocation {
    pub url: String,
    pub path: String,
}

/// Locate one cell: its remote URL and its local cache path. Pure: no side
/// effects, no I/O.
pub fn locate(symbol: &str, interval: &str, year: u32, month: u32) -> (loc: ArchiveLocation)
    ensures
        loc.url@ == spec_archive_url(symbol@, interval@, year as nat, month as nat),
        loc.path@ == spec_cache_path(symbol@, interval@, year as nat, month as nat),
{
    let year_s = u32_dec(year);
    let month_s = u32_two_digit(month);

    let mut url = String::from_str("https://data.binance.vision/data/spot/monthly/klines/");
    url.append(symbol);
    url.append("/");
    url.append(interval);
    url.append("/");
    url.append(symbol);
    url.append("-");
    url.append(interval);
    url.append("-");
    url.append(year_s.as_str());
    url.append("-");
    url.append(month_s.as_str());
    url.append(".zip");

    let mut path = String::from_str("history/");
    path.append(symbol);
    path.append("/");
    path.append(interval);
    path.append("/");
    path.append(year_s.as_str());
    path.append("-");
    path.append(month_s.as_str());
    path.append(".zip");

    proof {
        assert(url@ =~= spec_archive_url(symbol@, interval@, year as nat, month as nat));
        assert(path@ =~= spec_cache_path(symbol@, interval@, year as nat, month as nat));
    }
    ArchiveLocation { url, path }
}

/// The name of the row file expected inside a cell's archive.
pub fn entry_name(symbol: &str, interval: &str, year: u32, month: u32) -> (name: String)
    ensures
        name@ == spec_entry_name(symbol@, interval@, year as nat, month as nat),
{
    let year_s = u32_dec(year);
    let month_s = u32_two_digit(month);

    let mut name = String::from_str(symbol);
    name.append("-");
    name.append(interval);
    name.append("-");
    name.append(year_s.as_str());
    name.append("-");
    name.append(month_s.as_str());
    name.append(".csv");

    proof {
        assert(name@ =~= spec_entry_name(symbol@, interval@, year as nat, month as nat));
    }
    name
}

/// The cell a given rank of the enumeration denotes: ranks count months
/// first, then years, then intervals, then symbols, so the order is stable
/// and runs are reproducible.
pub open spec fn spec_cell_at(symbols: Seq<Seq<char>>, k: int) -> CellView {
    let s = k / 864;
    let rem = k % 864;
    let iv = rem / 96;
    let y = (rem % 96) / 12;
    let m = rem % 12 + 1;
    CellView {
        symbol: symbols[s],
        interval: spec_interval(iv),
        year: (2017 + y) as u32,
        month: m as u32,
    }
}

/// Enumerate the full work matrix for the given symbols, in the stable
/// order (symbol, then interval, then year, then month).
pub fn enumerate_cells(symbols: &Vec<String>) -> (r: Vec<Cell>)
    requires
        symbols@.len() * 864 <= usize::MAX,
    ensures
        r@.len() == symbols@.len() * 864,
        forall|k: int|
            0 <= k < r@.len() ==> (#[trigger] r@[k])@ == spec_cell_at(symbols.deep_view(), k),
{
    let ns = symbols.len();
    let mut r: Vec<Cell> = Vec::new();
    let mut s: usize = 0;
    while s < ns
        invariant
            ns == symbols@.len(),
            ns * 864 <= usize::MAX,
            0 <= s <= ns,
            r@.len() == s * 864,
            forall|k: int|
                0 <= k < r@.len() ==> (#[trigger] r@[k])@ == spec_cell_at(symbols.deep_view(), k),
        decreases ns - s,
    {
        let mut iv: usize = 0;
        while iv < 9
            invariant
                ns == symbols@.len(),
                ns * 864 <= usize::MAX,
                0 <= s < ns,
                0 <= iv <= 9,
                r@.len() == s * 864 + iv * 96,
                forall|k: int|
                    0 <= k < r@.len() ==> (#[trigger] r@[k])@ == spec_cell_at(
                        symbols.deep_view(),
                        k,
                    ),
            decreases 9 - iv,
        {
            let interval = interval_name(iv);
            let mut y: u32 = 2017;
            while y <= 2024
                invariant
                    ns == symbols@.len(),
                    ns * 864 <= usize::MAX,
                    0 <= s < ns,
                    0 <= iv < 9,
                    2017 <= y <= 2025,
                    interval@ == spec_interval(iv as int),
                    r@.len() == s * 864 + iv * 96 + (y - 2017) * 12,
                    forall|k: int|
                        0 <= k < r@.len() ==> (#[trigger] r@[k])@ == spec_cell_at(
                            symbols.deep_view(),
                            k,
                        ),
                decreases 2025 - y,
            {
                let mut m: u32 = 1;
                while m <= 12
                    invariant
                        ns == symbols@.len(),
                        ns * 864 <= usize::MAX,
                        0 <= s < ns,
                        0 <= iv < 9,
                        2017 <= y <= 2024,
                        1 <= m <= 13,
                        interval@ == spec_interval(iv as int),
                        r@.len() == s * 864 + iv * 96 + (y - 2017) * 12 + (m - 1),
                        forall|k: int|
                            0 <= k < r@.len() ==> (#[trigger] r@[k])@ == spec_cell_at(
                                symbols.deep_view(),
                                k,
                            ),
                    decreases 13 - m,
                {
                    let cell = Cell {
                        symbol: symbols[s].clone(),
                        interval: String::from_str(interval),
                        year: y,
                        month: m,
                    };
                    proof {
                        let k = r@.len() as int;
                        let rem = (iv * 96 + (y - 2017) * 12 + (m - 1)) as int;
                        vstd::arithmetic::div_mod::lemma_fundamental_div_mod_converse(
                            k,
                            864,
                            s as int,
                            rem,
                        );
                        vstd::arithmetic::div_mod::lemma_fundamental_div_mod_converse(
                            rem,
                            96,
                            iv as int,
                            ((y - 2017) * 12 + (m - 1)) as int,
                        );
                        vstd::arithmetic::div_mod::lemma_fundamental_div_mod_converse(
                            ((y - 2017) * 12 + (m - 1)) as int,
                            12,
                            (y - 2017) as int,
                            (m - 1) as int,
                        );
                        assert(symbols.deep_view()[s as int] == symbols@[s as int]@);
                        assert(cell@ == spec_cell_at(symbols.deep_view(), k));
                    }
                    r.push(cell);
                    m = m + 1;
                }
                y = y + 1;
            }
            iv = iv + 1;
        }
        s = s + 1;
    }
    r
}

} // verus!
