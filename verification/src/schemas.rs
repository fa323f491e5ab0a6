//! Market data: price bars, forward returns, and the read-only
//! repositories the evaluator replays them from.
//!
//! Prices are fixed-point hundredths of a currency unit and returns
//! fixed-point millionths, both as 64-bit integers, so indicator and
//! fitness arithmetic stays exact.

use vstd::prelude::*;

verus! {

/// Magnitude bound on every price field, in hundredths: large enough
/// for any real price series, small enough that indicator arithmetic
/// over windows stays inside `i128`.
pub const PRICE_LIMIT: i64 = 10_000_000_000;

/// Magnitude bound on a forward return, in millionths: a hundredfold
/// move per bar, keeping fitness sums inside `i64`.
pub const RET_LIMIT: i64 = 100_000_000;

/// Most bars a run may hold across the whole ticker universe.
pub const MAX_BARS: usize = 200_000;

/// One price bar: timestamp in seconds and fixed-point prices.
#[derive(Debug, Clone, Copy, PartialEq, Eq, Structural)]
pub struct Quote {
    pub ts: u64,
    pub open: i64,
    pub high: i64,
    pub low: i64,
    pub close: i64,
    pub volume: i64,
}

/// Every price field within the machine bound.
pub open spec fn quote_wf(q: Quote) -> bool {
    &&& -PRICE_LIMIT <= q.open <= PRICE_LIMIT
    &&& -PRICE_LIMIT <= q.high <= PRICE_LIMIT
    &&& -PRICE_LIMIT <= q.low <= PRICE_LIMIT
    &&& -PRICE_LIMIT <= q.close <= PRICE_LIMIT
    &&& -PRICE_LIMIT <= q.volume <= PRICE_LIMIT
}

/// A bar history: bounded in length, every bar well-formed.
pub open spec fn quotes_wf(qs: Seq<Quote>) -> bool {
    &&& qs.len() <= MAX_BARS
    &&& forall|i: int| 0 <= i < qs.len() ==> quote_wf(#[trigger] qs[i])
}

/// One forward return of the target ticker, keyed by timestamp.
#[derive(Debug, Clone, Copy, PartialEq, Eq, Structural)]
pub struct Return {
    pub ts: u64,
    pub ret: i64,
}

/// The return within the machine bound.
pub open spec fn return_wf(r: Return) -> bool {
    -RET_LIMIT <= r.ret <= RET_LIMIT
}

/// A ticker symbol.
#[derive(Debug)]
pub struct Ticker {
    pub symbol: String,
}

/// First entry of the repository whose ticker matches, if any.
pub open spec fn repo_find(entries: Seq<(String, Vec<Quote>)>, t: Seq<char>) -> Option<
    Seq<Quote>,
>
    decreases entries.len(),
{
    if entries.len() == 0 {
        None
    } else if entries[0].0@ == t {
        Some(entries[0].1@)
    } else {
        repo_find(entries.drop_first(), t)
    }
}

/// The read-only map from ticker to its full bar history, shared by
/// all evaluations of a run.
#[derive(Debug)]
pub struct QuotesRepo {
    pub entries: Vec<(String, Vec<Quote>)>,
}

impl QuotesRepo {
    /// The history a ticker maps to, if any.
    pub open spec fn spec_get(&self, t: Seq<char>) -> Option<Seq<Quote>> {
        repo_find(self.entries@, t)
    }

    /// Every stored history is well-formed.
    pub open spec fn wf(&self) -> bool {
        forall|i: int| 0 <= i < self.entries@.len() ==> quotes_wf(#[trigger] self.entries@[i].1@)
    }

    /// An empty repository.
    pub fn new() -> (r: QuotesRepo)
        ensures
            r.entries@.len() == 0,
            r.wf(),
    {
        QuotesRepo { entries: Vec::new() }
    }

    /// Adds one ticker's history.
    pub fn insert(&mut self, ticker: String, quotes: Vec<Quote>)
        requires
            quotes_wf(quotes@),
            old(self).wf(),
        ensures
            final(self).wf(),
            final(self).entries@ == old(self).entries@.push((ticker, quotes)),
    {
        self.entries.push((ticker, quotes));
    }

    /// Looks a ticker's history up.
    pub fn get(&self, ticker: &String) -> (r: Option<&Vec<Quote>>)
        ensures
            match r {
                Some(qs) => self.spec_get(ticker@) == Some(qs@) && (self.wf() ==> quotes_wf(
                    qs@,
                )),
                None => self.spec_get(ticker@) is None,
            },
    {
        let n = self.entries.len();
        let mut i: usize = 0;
        proof {
            assert(self.entries@.skip(0) =~= self.entries@);
        }
        while i < n
            invariant
                i <= n,
                n == self.entries@.len(),
                repo_find(self.entries@, ticker@) == repo_find(
                    self.entries@.skip(i as int),
                    ticker@,
                ),
            decreases n - i,
        {
            let ghost rest = self.entries@.skip(i as int);
            proof {
                assert(rest[0] == self.entries@[i as int]);
                assert(rest.drop_first() =~= self.entries@.skip(i as int + 1));
            }
            if self.entries[i].0.eq(ticker) {
                return Some(&self.entries[i].1);
            }
            i = i + 1;
        }
        proof {
            assert(self.entries@.skip(n as int).len() == 0);
        }
        None
    }
}

/// First return with a matching timestamp, if any.
pub open spec fn returns_find(entries: Seq<Return>, ts: u64) -> Option<Return>
    decreases entries.len(),
{
    if entries.len() == 0 {
        None
    } else if entries[0].ts == ts {
        Some(entries[0])
    } else {
        returns_find(entries.drop_first(), ts)
    }
}

/// A found return inherits the table's bounds.
pub proof fn lemma_returns_find_wf(entries: Seq<Return>, ts: u64)
    requires
        forall|i: int| 0 <= i < entries.len() ==> return_wf(#[trigger] entries[i]),
    ensures
        match returns_find(entries, ts) {
            Some(x) => return_wf(x),
            None => true,
        },
    decreases entries.len(),
{
    if entries.len() > 0 && entries[0].ts != ts {
        assert(forall|i: int|
            0 <= i < entries.drop_first().len() ==> #[trigger] entries.drop_first()[i] == entries[
                i + 1]);
        lemma_returns_find_wf(entries.drop_first(), ts);
    }
}

/// The read-only table of the target ticker's forward returns.
#[derive(Debug)]
pub struct ReturnsTable {
    pub entries: Vec<Return>,
}

impl ReturnsTable {
    /// The return recorded for a timestamp, if any.
    pub open spec fn spec_get(&self, ts: u64) -> Option<Return> {
        returns_find(self.entries@, ts)
    }

    /// Every stored return is within bounds.
    pub open spec fn wf(&self) -> bool {
        forall|i: int| 0 <= i < self.entries@.len() ==> return_wf(#[trigger] self.entries@[i])
    }

    /// An empty table.
    pub fn new() -> (r: ReturnsTable)
        ensures
            r.entries@.len() == 0,
            r.wf(),
    {
        ReturnsTable { entries: Vec::new() }
    }

    /// Adds one forward return.
    pub fn insert(&mut self, ret: Return)
        requires
            return_wf(ret),
            old(self).wf(),
        ensures
            final(self).wf(),
            final(self).entries@ == old(self).entries@.push(ret),
    {
        self.entries.push(ret);
    }

    /// Looks a timestamp's return up.
    pub fn get(&self, ts: u64) -> (r: Option<Return>)
        ensures
            r == self.spec_get(ts),
    {
        let n = self.entries.len();
        let mut i: usize = 0;
        proof {
            assert(self.entries@.skip(0) =~= self.entries@);
        }
        while i < n
            invariant
                i <= n,
                n == self.entries@.len(),
                returns_find(self.entries@, ts) == returns_find(
                    self.entries@.skip(i as int),
                    ts,
                ),
            decreases n - i,
        {
            let ghost rest = self.entries@.skip(i as int);
            proof {
                assert(rest[0] == self.entries@[i as int]);
                assert(rest.drop_first() =~= self.entries@.skip(i as int + 1));
            }
            if self.entries[i].ts == ts {
                return Some(self.entries[i]);
            }
            i = i + 1;
        }
        proof {
            assert(self.entries@.skip(n as int).len() == 0);
        }
        None
    }
}

} // verus!
