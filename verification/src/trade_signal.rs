//! Per-bar trade signals: one record per bar timestamp, accumulating
//! the ordered list of clauses that fired there and their 0/1
//! outcomes, later decorated with the bar's forward return and pnl.
//!
//! The map is a vector of records kept strictly sorted by timestamp:
//! the verified counterpart of an ordered map keyed by the bar's
//! timestamp.

use vstd::prelude::*;

use crate::schemas::RET_LIMIT;
use crate::strategies::Strategy;
use crate::text::views;
use crate::window::Window;

verus! {

/// One bar's signal record.
#[derive(Debug)]
pub struct TradeSignal {
    pub chromosome_id: u128,
    pub ts: u64,
    /// The clauses that fired on this bar, in replay order.
    pub strategies: Vec<String>,
    /// Each clause's 0/1 outcome, aligned with `strategies`.
    pub signals: Vec<i32>,
    pub target_ticker: String,
    /// 1 when every clause of the candidate fired on this bar.
    pub hard_signal: i32,
    pub generation: i32,
    /// The bar's forward return, merged in after replay.
    pub ret: i64,
    /// The realized pnl: the forward return when the hard trigger
    /// fired, else zero.
    pub pnl: i64,
}

/// The mathematical shape of a signal record.
pub struct SignalRecV {
    pub chromosome_id: u128,
    pub ts: u64,
    pub strategies: Seq<Seq<char>>,
    pub signals: Seq<i32>,
    pub target_ticker: Seq<char>,
    pub hard_signal: i32,
    pub generation: i32,
    pub ret: i64,
    pub pnl: i64,
}

impl View for TradeSignal {
    type V = SignalRecV;

    open spec fn view(&self) -> SignalRecV {
        SignalRecV {
            chromosome_id: self.chromosome_id,
            ts: self.ts,
            strategies: views(self.strategies@),
            signals: self.signals@,
            target_ticker: self.target_ticker@,
            hard_signal: self.hard_signal,
            generation: self.generation,
            ret: self.ret,
            pnl: self.pnl,
        }
    }
}

/// A record is well-formed: one 0/1 outcome per recorded clause, a
/// 0/1 hard trigger, and return and pnl within the machine bound.
pub open spec fn rec_wf(r: SignalRecV) -> bool {
    &&& r.signals.len() == r.strategies.len()
    &&& forall|i: int| 0 <= i < r.signals.len() ==> #[trigger] r.signals[i] == 0 || r.signals[i]
        == 1
    &&& (r.hard_signal == 0 || r.hard_signal == 1)
    &&& -RET_LIMIT <= r.ret <= RET_LIMIT
    &&& -RET_LIMIT <= r.pnl <= RET_LIMIT
}

/// A signal map is well-formed: strictly ascending timestamps and
/// well-formed records.
pub open spec fn sm_wf(s: Seq<SignalRecV>) -> bool {
    &&& forall|i: int, j: int| 0 <= i < j < s.len() ==> s[i].ts < s[j].ts
    &&& forall|i: int| 0 <= i < s.len() ==> rec_wf(#[trigger] s[i])
}

/// Some record of `s` has timestamp `ts`.
pub open spec fn ts_in(s: Seq<SignalRecV>, ts: u64) -> bool {
    exists|j: int| 0 <= j < s.len() && (#[trigger] s[j]).ts == ts
}

/// A fresh record for the first clause that touches a bar.
pub open spec fn init_rec(
    chromosome_id: u128,
    target_ticker: Seq<char>,
    generation: i32,
    name: Seq<char>,
    ts: u64,
    sig: i32,
) -> SignalRecV {
    SignalRecV {
        chromosome_id,
        ts,
        strategies: seq![name],
        signals: seq![sig],
        target_ticker,
        hard_signal: 0,
        generation,
        ret: 0,
        pnl: 0,
    }
}

/// A record extended by one more clause outcome; the merge fields
/// reset to zero, as they are only filled after the full replay.
pub open spec fn update_rec(r: SignalRecV, name: Seq<char>, sig: i32) -> SignalRecV {
    SignalRecV {
        strategies: r.strategies.push(name),
        signals: r.signals.push(sig),
        ret: 0,
        pnl: 0,
        ..r
    }
}

/// Inserting one clause outcome into the ordered map: the record at
/// the fresh record's timestamp is extended if it exists, else the
/// fresh record enters at its sorted position.
pub open spec fn upsert_rec(
    m: Seq<SignalRecV>,
    fresh: SignalRecV,
    name: Seq<char>,
    sig: i32,
) -> Seq<SignalRecV>
    decreases m.len(),
{
    if m.len() == 0 {
        seq![fresh]
    } else if m[0].ts == fresh.ts {
        seq![update_rec(m[0], name, sig)] + m.drop_first()
    } else if m[0].ts < fresh.ts {
        seq![m[0]] + upsert_rec(m.drop_first(), fresh, name, sig)
    } else {
        seq![fresh] + m
    }
}

/// The insertion keeps the map well-formed, grows it by at most one
/// record, and touches no timestamp but the fresh one.
pub proof fn lemma_upsert_rec_props(m: Seq<SignalRecV>, fresh: SignalRecV, name: Seq<char>, sig: i32)
    requires
        sm_wf(m),
        rec_wf(fresh),
        fresh.strategies == seq![name],
        fresh.signals == seq![sig],
        sig == 0 || sig == 1,
    ensures
        sm_wf(upsert_rec(m, fresh, name, sig)),
        m.len() <= upsert_rec(m, fresh, name, sig).len() <= m.len() + 1,
        forall|i: int|
            0 <= i < upsert_rec(m, fresh, name, sig).len() ==> (#[trigger] upsert_rec(
                m,
                fresh,
                name,
                sig,
            )[i]).ts == fresh.ts || ts_in(m, upsert_rec(m, fresh, name, sig)[i].ts),
    decreases m.len(),
{
    let out = upsert_rec(m, fresh, name, sig);
    if m.len() == 0 {
    } else if m[0].ts == fresh.ts {
        assert(rec_wf(update_rec(m[0], name, sig))) by {
            assert(rec_wf(m[0]));
            assert(forall|i: int|
                0 <= i < m[0].signals.len() ==> #[trigger] m[0].signals.push(sig)[i] == m[0].signals[i]);
        }
        assert(forall|i: int| 0 <= i < out.len() ==> out[i].ts == m[i].ts);
        assert(forall|i: int|
            0 <= i < out.len() ==> (#[trigger] out[i]).ts == fresh.ts || ts_in(m, out[i].ts)) by {
            assert(forall|i: int| 0 <= i < m.len() ==> ts_in(m, (#[trigger] m[i]).ts));
        }
    } else if m[0].ts < fresh.ts {
        let tail = m.drop_first();
        assert(sm_wf(tail)) by {
            assert(forall|i: int| 0 <= i < tail.len() ==> #[trigger] tail[i] == m[i + 1]);
        }
        lemma_upsert_rec_props(tail, fresh, name, sig);
        let sub = upsert_rec(tail, fresh, name, sig);
        assert(out == seq![m[0]] + sub);
        assert(forall|i: int| 0 <= i < sub.len() ==> #[trigger] out[i + 1] == sub[i]);
        assert(out[0] == m[0]);
        // every element of the recursive result sits above m[0].ts
        assert(forall|i: int| 0 <= i < sub.len() ==> m[0].ts < (#[trigger] sub[i]).ts) by {
            assert(forall|j: int| 0 <= j < tail.len() ==> m[0].ts < (#[trigger] tail[j]).ts);
            assert(forall|i: int|
                0 <= i < sub.len() ==> (#[trigger] sub[i]).ts == fresh.ts || ts_in(
                    tail,
                    sub[i].ts,
                ));
        }
        assert(sm_wf(out)) by {
            assert(forall|i: int, j: int|
                0 <= i < j < out.len() ==> out[i].ts < out[j].ts) by {
                assert(forall|i: int, j: int|
                    1 <= i < j < out.len() ==> out[i].ts == sub[i - 1].ts && out[j].ts == sub[j
                        - 1].ts);
            }
        }
        assert(forall|i: int|
            0 <= i < out.len() ==> (#[trigger] out[i]).ts == fresh.ts || ts_in(m, out[i].ts)) by {
            assert(forall|j: int| 0 <= j < tail.len() ==> tail[j] == m[j + 1]);
            assert(forall|j: int| 0 <= j < tail.len() && ts_in(tail, (#[trigger] tail[j]).ts)
                ==> ts_in(m, tail[j].ts));
            assert(forall|t: u64| ts_in(tail, t) ==> ts_in(m, t)) by {
                assert(forall|j: int|
                    0 <= j < tail.len() ==> (#[trigger] tail[j]).ts == m[j + 1].ts);
            }
            assert(ts_in(m, m[0].ts));
        }
    } else {
        assert(out == seq![fresh] + m);
        assert(forall|i: int| 0 <= i < m.len() ==> #[trigger] out[i + 1] == m[i]);
        assert(forall|i: int| 0 <= i < m.len() ==> ts_in(m, (#[trigger] m[i]).ts));
    }
}

/// The positional reading of `upsert_rec`: scanning to the first
/// index at or past the fresh timestamp, the insertion either extends
/// the record found there or splices the fresh record in.
proof fn lemma_upsert_position(
    m: Seq<SignalRecV>,
    fresh: SignalRecV,
    name: Seq<char>,
    sig: i32,
    k: int,
)
    requires
        sm_wf(m),
        0 <= k <= m.len(),
        forall|i: int| 0 <= i < k ==> (#[trigger] m[i]).ts < fresh.ts,
        k < m.len() ==> m[k].ts >= fresh.ts,
    ensures
        upsert_rec(m, fresh, name, sig) == if k < m.len() && m[k].ts == fresh.ts {
            m.update(k, update_rec(m[k], name, sig))
        } else {
            m.subrange(0, k) + seq![fresh] + m.skip(k)
        },
    decreases k,
{
    if k == 0 {
        if m.len() == 0 {
            assert(upsert_rec(m, fresh, name, sig) =~= m.subrange(0, 0) + seq![fresh] + m.skip(0));
        } else if m[0].ts == fresh.ts {
            assert(upsert_rec(m, fresh, name, sig) =~= m.update(0, update_rec(m[0], name, sig)));
        } else {
            assert(m[0].ts > fresh.ts);
            assert(upsert_rec(m, fresh, name, sig) =~= m.subrange(0, 0) + seq![fresh] + m.skip(0));
        }
    } else {
        assert(m[0].ts < fresh.ts);
        let tail = m.drop_first();
        assert(sm_wf(tail)) by {
            assert(forall|i: int| 0 <= i < tail.len() ==> #[trigger] tail[i] == m[i + 1]);
        }
        assert(forall|i: int| 0 <= i < k - 1 ==> (#[trigger] tail[i]).ts < fresh.ts) by {
            assert(forall|i: int| 0 <= i < tail.len() ==> #[trigger] tail[i] == m[i + 1]);
        }
        assert(k - 1 < tail.len() ==> tail[k - 1].ts >= fresh.ts);
        lemma_upsert_position(tail, fresh, name, sig, k - 1);
        assert(upsert_rec(m, fresh, name, sig) == seq![m[0]] + upsert_rec(tail, fresh, name, sig));
        if k < m.len() && m[k].ts == fresh.ts {
            assert(tail[k - 1] == m[k]);
            assert(seq![m[0]] + tail.update(k - 1, update_rec(tail[k - 1], name, sig)) =~= m.update(
                k,
                update_rec(m[k], name, sig),
            ));
        } else {
            assert(seq![m[0]] + (tail.subrange(0, k - 1) + seq![fresh] + tail.skip(k - 1))
                =~= m.subrange(0, k) + seq![fresh] + m.skip(k));
        }
    }
}

/// The ordered per-bar signal map of one candidate's evaluation.
#[derive(Debug)]
pub struct SignalMap {
    pub records: Vec<TradeSignal>,
}

/// The map's records as mathematical values.
pub open spec fn sm_recs(records: Seq<TradeSignal>) -> Seq<SignalRecV> {
    records.map_values(|t: TradeSignal| t@)
}

impl SignalMap {
    /// The record sequence this map stands for.
    pub open spec fn recs(&self) -> Seq<SignalRecV> {
        sm_recs(self.records@)
    }

    /// An empty map.
    pub fn new() -> (r: SignalMap)
        ensures
            r.recs() =~= Seq::<SignalRecV>::empty(),
            sm_wf(r.recs()),
    {
        SignalMap { records: Vec::new() }
    }

    /// How many bars have a record.
    pub fn len(&self) -> (n: usize)
        ensures
            n == self.recs().len(),
    {
        self.records.len()
    }

    /// Records one clause outcome against a bar: the first touch of a
    /// timestamp creates its record, later touches append to it.
    pub fn upsert(&mut self, strategy: &Strategy, ts: u64, signal: i32)
        requires
            sm_wf(old(self).recs()),
            signal == 0 || signal == 1,
        ensures
            final(self).recs() == upsert_rec(
                old(self).recs(),
                init_rec(
                    strategy.chromosome_id,
                    strategy.target_ticker@,
                    strategy.generation,
                    strategy.strategy@,
                    ts,
                    signal,
                ),
                strategy.strategy@,
                signal,
            ),
            sm_wf(final(self).recs()),
            old(self).recs().len() <= final(self).recs().len() <= old(self).recs().len() + 1,
            forall|i: int|
                0 <= i < final(self).recs().len() ==> (#[trigger] final(self).recs()[i]).ts == ts
                    || ts_in(old(self).recs(), final(self).recs()[i].ts),
    {
        let ghost m = self.recs();
        let ghost fresh = init_rec(
            strategy.chromosome_id,
            strategy.target_ticker@,
            strategy.generation,
            strategy.strategy@,
            ts,
            signal,
        );
        let n = self.records.len();
        let mut k: usize = 0;
        while k < n && self.records[k].ts < ts
            invariant
                0 <= k <= n,
                n == self.records@.len(),
                m == sm_recs(self.records@),
                sm_wf(m),
                forall|i: int| 0 <= i < k ==> (#[trigger] m[i]).ts < ts,
            decreases n - k,
        {
            proof {
                assert(m[k as int].ts == self.records@[k as int].ts);
            }
            k = k + 1;
        }
        proof {
            assert(k < n ==> m[k as int].ts >= ts);
            assert(fresh.ts == ts);
            lemma_upsert_position(m, fresh, strategy.strategy@, signal, k as int);
            lemma_upsert_rec_props(m, fresh, strategy.strategy@, signal);
        }
        if k < n && self.records[k].ts == ts {
            let rec = self.records.remove(k);
            let mut strategies = rec.strategies;
            strategies.push(strategy.strategy.clone());
            let mut signals = rec.signals;
            signals.push(signal);
            let updated = TradeSignal {
                chromosome_id: rec.chromosome_id,
                ts: rec.ts,
                strategies,
                signals,
                target_ticker: rec.target_ticker,
                hard_signal: rec.hard_signal,
                generation: rec.generation,
                ret: 0,
                pnl: 0,
            };
            proof {
                assert(views(strategies@) =~= m[k as int].strategies.push(strategy.strategy@));
                assert(updated@ == update_rec(m[k as int], strategy.strategy@, signal));
            }
            self.records.insert(k, updated);
            proof {
                assert(self.records@ =~= old(self).records@.update(k as int, updated));
                assert(sm_recs(self.records@) =~= m.update(
                    k as int,
                    update_rec(m[k as int], strategy.strategy@, signal),
                ));
            }
        } else {
            let fresh_rec = init_trade_signal_at(strategy, ts, signal);
            self.records.insert(k, fresh_rec);
            proof {
                assert(sm_recs(self.records@) =~= m.subrange(0, k as int) + seq![fresh] + m.skip(
                    k as int,
                ));
            }
        }
    }
}

/// Builds the first record of a bar from a clause's outcome.
fn init_trade_signal_at(strategy: &Strategy, ts: u64, signal: i32) -> (r: TradeSignal)
    ensures
        r@ == init_rec(
            strategy.chromosome_id,
            strategy.target_ticker@,
            strategy.generation,
            strategy.strategy@,
            ts,
            signal,
        ),
{
    let mut strategies: Vec<String> = Vec::new();
    strategies.push(strategy.strategy.clone());
    let mut signals: Vec<i32> = Vec::new();
    signals.push(signal);
    let r = TradeSignal {
        chromosome_id: strategy.chromosome_id,
        ts,
        strategies,
        signals,
        target_ticker: strategy.target_ticker.clone(),
        hard_signal: 0,
        generation: strategy.generation,
        ret: 0,
        pnl: 0,
    };
    proof {
        assert(views(r.strategies@) =~= seq![strategy.strategy@]);
        assert(r.signals@ =~= seq![signal]);
    }
    r
}

/// Initializes the signal record a window's bar gets from its first
/// clause outcome.
pub fn init_trade_signal(strategy: &Strategy, window: &Window, signal: i32) -> (r: TradeSignal)
    ensures
        r@ == init_rec(
            strategy.chromosome_id,
            strategy.target_ticker@,
            strategy.generation,
            strategy.strategy@,
            window.current_quote.ts,
            signal,
        ),
{
    init_trade_signal_at(strategy, window.current_quote.ts, signal)
}

} // verus!
