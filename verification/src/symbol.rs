//! Trading symbols: the directory's records, the filter for actively
//! trading ones, and the benign-duplicate rule of directory population.

use vstd::prelude::*;

verus! {

/// A trading pair as the symbol directory describes it. Immutable within a
/// run; only symbols whose status is TRADING participate in ingestion.
#[derive(Debug)]
pub struct Symbol {
    pub symbol: String,
    pub status: String,
    pub base_asset: String,
    pub quote_asset: String,
}

/// Mathematical image of a symbol record.
pub ghost struct SymbolView {
    pub symbol: Seq<char>,
    pub status: Seq<char>,
    pub base_asset: Seq<char>,
    pub quote_asset: Seq<char>,
}

impl View for Symbol {
    type V = SymbolView;

    open spec fn view(&self) -> SymbolView {
        SymbolView {
            symbol: self.symbol@,
            status: self.status@,
            base_asset: self.base_asset@,
            quote_asset: self.quote_asset@,
        }
    }
}

impl DeepView for Symbol {
    type V = SymbolView;

    open spec fn deep_view(&self) -> SymbolView {
        self.view()
    }
}

impl Clone for Symbol {
    /// A clone denotes the same symbol record.
    fn clone(&self) -> (r: Symbol)
        ensures
            r@ == self@,
    {
        Symbol {
            symbol: self.symbol.clone(),
            status: self.status.clone(),
            base_asset: self.base_asset.clone(),
            quote_asset: self.quote_asset.clone(),
        }
    }
}

/// Whether a symbol is actively trading.
pub open spec fn spec_is_trading(s: SymbolView) -> bool {
    s.status == "TRADING"@
}

/// The actively trading subset of a symbol list, in the list's order.
pub open spec fn spec_trading(all: Seq<SymbolView>) -> Seq<SymbolView>
    decreases all.len(),
{
    if all.len() == 0 {
        Seq::empty()
    } else {
        let prefix = spec_trading(all.drop_last());
        if spec_is_trading(all.last()) {
            prefix.push(all.last())
        } else {
            prefix
        }
    }
}

impl Symbol {
    /// Whether this symbol's status is TRADING.
    pub fn is_trading(&self) -> (r: bool)
        ensures
            r == spec_is_trading(self@),
    {
        let trading = String::from_str("TRADING");
        self.status == trading
    }

    /// Keep only the actively trading symbols, in order: the subset of the
    /// directory that participates in ingestion.
    pub fn filter_trading(all: &Vec<Symbol>) -> (r: Vec<Symbol>)
        ensures
            r.deep_view() == spec_trading(all.deep_view()),
    {
        let ghost sall = all.deep_view();
        let n = all.len();
        let mut r: Vec<Symbol> = Vec::new();
        let mut i: usize = 0;
        proof {
            assert(sall.subrange(0, 0) =~= Seq::<SymbolView>::empty());
            assert(r.deep_view() =~= Seq::<SymbolView>::empty());
        }
        while i < n
            invariant
                sall == all.deep_view(),
                n == all@.len(),
                sall.len() == n,
                0 <= i <= n,
                r.deep_view() == spec_trading(sall.subrange(0, i as int)),
            decreases n - i,
        {
            let ghost pre = sall.subrange(0, i as int);
            let ghost pre1 = sall.subrange(0, i + 1);
            proof {
                assert(pre1.drop_last() =~= pre);
                assert(pre1.last() == all@[i as int]@);
            }
            if all[i].is_trading() {
                let ghost old_r = r.deep_view();
                let picked = all[i].clone();
                let ghost pv = picked@;
                r.push(picked);
                proof {
                    assert(r.deep_view() =~~= old_r.push(pv));
                }
            }
            i = i + 1;
        }
        proof {
            assert(sall.subrange(0, n as int) =~= sall);
        }
        r
    }
}

/// Whether a failed symbol insert is the benign "already known" case: the
/// store reported a conflict on the symbols primary key. Such a symbol is
/// skipped with a warning, never a failure; any other insert error
/// propagates.
pub fn is_benign_duplicate(constraint: &Option<String>) -> (r: bool)
    ensures
        r == (constraint is Some && constraint.unwrap()@ == "symbols_pkey"@),
{
    match constraint {
        Some(c) => {
            let pkey = String::from_str("symbols_pkey");
            *c == pkey
        },
        None => false,
    }
}

} // verus!
