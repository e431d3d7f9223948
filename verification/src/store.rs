//! The loader's storage model: a candle table whose key
//! (symbol, interval, open_time) is globally unique, filled by
//! conflict-ignoring upsert.
//!
//! The model pins down what the persistence layer must do: inserting a
//! record whose key already exists is a successful no-op, never an error and
//! never a duplicate row, which makes every load safe to repeat.

use vstd::prelude::*;

use crate::candle::{candle_key, Candle, CandleView};
use crate::error::IngestError;
use crate::parse::{parse_csv, spec_parse_csv};

verus! {

/// Whether some stored row carries the given key.
pub open spec fn spec_contains_key(
    rows: Seq<CandleView>,
    key: (Seq<char>, Seq<char>, i64),
) -> bool {
    exists|i: int| 0 <= i < rows.len() && candle_key(rows[i]) == key
}

/// The storage invariant: no two rows share a key.
pub open spec fn unique_keys(rows: Seq<CandleView>) -> bool {
    forall|i: int, j: int|
        0 <= i < j < rows.len() ==> candle_key(rows[i]) != candle_key(rows[j])
}

/// The store after upserting `recs` in order with ignore-on-conflict: a
/// record whose key is already visible leaves the store unchanged.
pub open spec fn spec_load(rows: Seq<CandleView>, recs: Seq<CandleView>) -> Seq<CandleView>
    decreases recs.len(),
{
    if recs.len() == 0 {
        rows
    } else {
        let prev = spec_load(rows, recs.drop_last());
        if spec_contains_key(prev, candle_key(recs.last())) {
            prev
        } else {
            prev.push(recs.last())
        }
    }
}

/// How many of `recs` become newly visible when upserted in order.
pub open spec fn spec_load_count(rows: Seq<CandleView>, recs: Seq<CandleView>) -> nat
    decreases recs.len(),
{
    if recs.len() == 0 {
        0
    } else {
        let prev = spec_load(rows, recs.drop_last());
        spec_load_count(rows, recs.drop_last()) + if spec_contains_key(
            prev,
            candle_key(recs.last()),
        ) {
            0
        } else {
            1nat
        }
    }
}

/// The candle table. One value models the rows of one store; the loader
/// fills it one partition batch at a time.
pub struct CandleStore {
    rows: Vec<Candle>,
}

impl View for CandleStore {
    type V = Seq<CandleView>;

    closed spec fn view(&self) -> Seq<CandleView> {
        self.rows.deep_view()
    }
}

impl CandleStore {
    /// An empty store.
    pub fn new() -> (s: CandleStore)
        ensures
            s@ == Seq::<CandleView>::empty(),
            unique_keys(s@),
    {
        let s = CandleStore { rows: Vec::new() };
        proof {
            assert(s@ =~= Seq::<CandleView>::empty());
        }
        s
    }

    /// How many rows are stored.
    pub fn len(&self) -> (n: usize)
        ensures
            n == self@.len(),
    {
        self.rows.len()
    }

    /// The stored row at an index, in insertion order.
    pub fn row(&self, i: usize) -> (c: &Candle)
        requires
            i < self@.len(),
        ensures
            c@ == self@[i as int],
    {
        &self.rows[i]
    }

    /// Whether a row with `c`'s key is already stored.
    pub fn contains_key(&self, c: &Candle) -> (r: bool)
        ensures
            r == spec_contains_key(self@, candle_key(c@)),
    {
        let n = self.rows.len();
        let mut i: usize = 0;
        while i < n
            invariant
                n == self.rows@.len(),
                0 <= i <= n,
                self@.len() == self.rows@.len(),
                forall|j: int| 0 <= j < i ==> candle_key(self@[j]) != candle_key(c@),
            decreases n - i,
        {
            if self.rows[i].same_key(c) {
                proof {
                    assert(candle_key(self@[i as int]) == candle_key(c@));
                }
                return true;
            }
            i = i + 1;
        }
        false
    }

    /// Upsert one candle with ignore-on-conflict: a record whose key is
    /// already stored is a successful no-op; first write wins.
    pub fn insert_ignore(&mut self, c: Candle) -> (inserted: bool)
        requires
            unique_keys(old(self)@),
        ensures
            unique_keys(final(self)@),
            inserted == !spec_contains_key(old(self)@, candle_key(c@)),
            inserted ==> final(self)@ == old(self)@.push(c@),
            !inserted ==> final(self)@ == old(self)@,
    {
        if self.contains_key(&c) {
            false
        } else {
            let ghost old_rows = self@;
            let ghost cv = c@;
            self.rows.push(c);
            proof {
                assert(self@ =~= old_rows.push(cv));
            }
            true
        }
    }

    /// Load a batch of records for one partition in record order, upserting
    /// each with ignore-on-conflict, and return how many rows became newly
    /// visible.
    pub fn load_batch(&mut self, records: &Vec<Candle>) -> (n: usize)
        requires
            unique_keys(old(self)@),
        ensures
            unique_keys(final(self)@),
            final(self)@ == spec_load(old(self)@, records.deep_view()),
            n == spec_load_count(old(self)@, records.deep_view()),
    {
        let ghost recs = records.deep_view();
        let ghost rows0 = self@;
        let m = records.len();
        let mut n: usize = 0;
        let mut i: usize = 0;
        proof {
            assert(recs.subrange(0, 0) =~= Seq::<CandleView>::empty());
            assert(recs.len() == records@.len());
        }
        while i < m
            invariant
                unique_keys(old(self)@),
                rows0 == old(self)@,
                recs == records.deep_view(),
                m == records@.len(),
                recs.len() == m,
                0 <= i <= m,
                n <= i,
                unique_keys(self@),
                self@ == spec_load(rows0, recs.subrange(0, i as int)),
                n == spec_load_count(rows0, recs.subrange(0, i as int)),
            decreases m - i,
        {
            let ghost pre = recs.subrange(0, i as int);
            let ghost pre1 = recs.subrange(0, i + 1);
            proof {
                assert(pre1.drop_last() =~= pre);
                assert(recs[i as int] == records@[i as int].deep_view());
                assert(pre1.last() == records@[i as int]@);
            }
            let inserted = self.insert_ignore(records[i].clone());
            if inserted {
                n = n + 1;
            }
            i = i + 1;
        }
        proof {
            assert(recs.subrange(0, m as int) =~= recs);
        }
        n
    }
}

/// Ingest one cell's extracted row file into the store: parse the rows of
/// the given partition, then load them as one batch. A malformed row fails
/// the cell and leaves the store exactly as it was; on success the result
/// counts the newly visible rows.
pub fn ingest_cell(store: &mut CandleStore, symbol: &String, interval: &String, data: &[u8]) -> (r:
    Result<usize, IngestError>)
    requires
        unique_keys(old(store)@),
    ensures
        unique_keys(final(store)@),
        r is Ok <==> spec_parse_csv(symbol@, interval@, data@) is Some,
        r is Ok ==> final(store)@ == spec_load(
            old(store)@,
            spec_parse_csv(symbol@, interval@, data@).unwrap(),
        ),
        r is Ok ==> r->Ok_0 == spec_load_count(
            old(store)@,
            spec_parse_csv(symbol@, interval@, data@).unwrap(),
        ),
        r is Err ==> final(store)@ == old(store)@ && r->Err_0 == IngestError::RowMalformed,
{
    match parse_csv(symbol, interval, data) {
        Ok(records) => Ok(store.load_batch(&records)),
        Err(e) => Err(e),
    }
}

/// After a load, every record of the batch has its key visible in the
/// store.
proof fn lemma_load_contains_all(rows: Seq<CandleView>, recs: Seq<CandleView>, i: int)
    requires
        0 <= i < recs.len(),
    ensures
        spec_contains_key(spec_load(rows, recs), candle_key(recs[i])),
    decreases recs.len(),
{
    let prev = spec_load(rows, recs.drop_last());
    let result = spec_load(rows, recs);
    if i == recs.len() - 1 {
        if spec_contains_key(prev, candle_key(recs.last())) {
            assert(result == prev);
        } else {
            assert(candle_key(result[prev.len() as int]) == candle_key(recs.last()));
        }
    } else {
        lemma_load_contains_all(rows, recs.drop_last(), i);
        assert(recs.drop_last()[i] == recs[i]);
        if !spec_contains_key(prev, candle_key(recs.last())) {
            let j = choose|j: int|
                0 <= j < prev.len() && candle_key(prev[j]) == candle_key(recs[i]);
            assert(candle_key(prev.push(recs.last())[j]) == candle_key(recs[i]));
        }
    }
}

/// Loading records whose keys are all already visible changes nothing and
/// persists zero rows.
proof fn lemma_load_noop(rows: Seq<CandleView>, recs: Seq<CandleView>)
    requires
        forall|i: int| 0 <= i < recs.len() ==> spec_contains_key(rows, candle_key(recs[i])),
    ensures
        spec_load(rows, recs) == rows,
        spec_load_count(rows, recs) == 0,
    decreases recs.len(),
{
    if recs.len() != 0 {
        assert forall|i: int| 0 <= i < recs.drop_last().len() implies spec_contains_key(
            rows,
            candle_key(recs.drop_last()[i]),
        ) by {
            assert(recs.drop_last()[i] == recs[i]);
        }
        lemma_load_noop(rows, recs.drop_last());
        assert(spec_contains_key(rows, candle_key(recs.last())));
    }
}

/// Loading a batch is idempotent: running the same batch a second time
/// leaves the store exactly as one run does, and the second run persists
/// zero additional rows.
pub proof fn lemma_load_idempotent(rows: Seq<CandleView>, recs: Seq<CandleView>)
    ensures
        spec_load(spec_load(rows, recs), recs) == spec_load(rows, recs),
        spec_load_count(spec_load(rows, recs), recs) == 0,
{
    let loaded = spec_load(rows, recs);
    assert forall|i: int| 0 <= i < recs.len() implies spec_contains_key(
        loaded,
        candle_key(recs[i]),
    ) by {
        lemma_load_contains_all(rows, recs, i);
    }
    lemma_load_noop(loaded, recs);
}

/// First write wins: loading two candles that share a key but differ in
/// their other fields persists exactly the first, as one row.
pub proof fn lemma_first_write_wins(rows: Seq<CandleView>, c1: CandleView, c2: CandleView)
    requires
        !spec_contains_key(rows, candle_key(c1)),
        candle_key(c1) == candle_key(c2),
    ensures
        spec_load(rows, seq![c1, c2]) == rows.push(c1),
        spec_load_count(rows, seq![c1, c2]) == 1,
{
    let pair = seq![c1, c2];
    let single = seq![c1];
    let none_yet = Seq::<CandleView>::empty();
    assert(pair.drop_last() =~= single);
    assert(single.drop_last() =~= none_yet);
    assert(spec_load(rows, none_yet) == rows);
    assert(spec_load_count(rows, none_yet) == 0);
    assert(spec_load(rows, single) == rows.push(c1));
    assert(spec_load_count(rows, single) == 1);
    assert(candle_key(rows.push(c1)[rows.len() as int]) == candle_key(c2));
    assert(spec_contains_key(rows.push(c1), candle_key(c2)));
    assert(spec_load(rows, pair) == rows.push(c1));
    assert(spec_load_count(rows, pair) == 1);
}


} // verus!
