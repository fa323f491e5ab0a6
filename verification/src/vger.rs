//! The signal evaluator: expands a candidate into clauses, replays
//! every clause over its ticker's bar history, merges forward
//! returns, computes hard triggers and pnl, and aggregates the
//! candidate's fitness record.

use vstd::prelude::*;

use crate::chromosome::Chromosome;
use crate::errors::RunError;
use crate::ratio::Ratio;
use crate::schemas::repo_find;
use crate::schemas::Quote;
use crate::schemas::QuotesRepo;
use crate::schemas::ReturnsTable;
use crate::schemas::MAX_BARS;
use crate::strategies::above_ma;
use crate::strategies::apply_from;
use crate::strategies::below_ma;
use crate::strategies::con_down_days;
use crate::strategies::con_up_days;
use crate::strategies::gap_down_days;
use crate::strategies::gap_up_days;
use crate::strategies::highest_high_value;
use crate::strategies::lowest_low_value;
use crate::strategies::q_has_ts;
use crate::strategies::spec_parse_clause;
use crate::strategies::expand_strategies;
use crate::strategies::spec_expand_err;
use crate::strategies::stddev_a;
use crate::strategies::stddev_b;
use crate::strategies::stddev_d;
use crate::strategies::stddev_f;
use crate::strategies::Indicator;
use crate::strategies::Strategy;
use crate::text::spec_split_clauses;
use crate::trade_signal::rec_wf;
use crate::trade_signal::sm_wf;
use crate::trade_signal::ts_in;
use crate::trade_signal::SignalMap;
use crate::trade_signal::SignalRecV;
use crate::trade_signal::TradeSignal;

verus! {

/// Replays one clause with its own indicator, as `generate_signals`
/// dispatches it.
pub fn generate_strategy_signals(
    strategy: &Strategy,
    trade_signals: &mut SignalMap,
    quotes: &Vec<Quote>,
)
    requires
        crate::schemas::quotes_wf(quotes@),
        strategy.param >= 0,
        sm_wf(old(trade_signals).recs()),
    ensures
        final(trade_signals).recs() == apply_from(
            old(trade_signals).recs(),
            strategy.indicator,
            strategy.chromosome_id,
            strategy.target_ticker@,
            strategy.generation,
            strategy.strategy@,
            quotes@,
            strategy.param as int,
            0,
        ),
        sm_wf(final(trade_signals).recs()),
        forall|i: int|
            0 <= i < final(trade_signals).recs().len() ==> ts_in(
                old(trade_signals).recs(),
                (#[trigger] final(trade_signals).recs()[i]).ts,
            ) || q_has_ts(quotes@, final(trade_signals).recs()[i].ts),
{
    match strategy.indicator {
        Indicator::Llv => lowest_low_value::call(strategy, trade_signals, quotes),
        Indicator::Hhv => highest_high_value::call(strategy, trade_signals, quotes),
        Indicator::ConUpDays => con_up_days::call(strategy, trade_signals, quotes),
        Indicator::ConDownDays => con_down_days::call(strategy, trade_signals, quotes),
        Indicator::GapUp => gap_up_days::call(strategy, trade_signals, quotes),
        Indicator::GapDown => gap_down_days::call(strategy, trade_signals, quotes),
        Indicator::BelowMa => below_ma::call(strategy, trade_signals, quotes),
        Indicator::AboveMa => above_ma::call(strategy, trade_signals, quotes),
        Indicator::StdevA => stddev_a::call(strategy, trade_signals, quotes),
        Indicator::StdevB => stddev_b::call(strategy, trade_signals, quotes),
        Indicator::StdevD => stddev_d::call(strategy, trade_signals, quotes),
        Indicator::StdevF => stddev_f::call(strategy, trade_signals, quotes),
    }
}

/// Some bar of some history in the repository carries timestamp `ts`.
pub open spec fn repo_has_ts(entries: Seq<(String, Vec<Quote>)>, ts: u64) -> bool {
    exists|ei: int| 0 <= ei < entries.len() && q_has_ts((#[trigger] entries[ei]).1@, ts)
}

proof fn lemma_repo_find_has(entries: Seq<(String, Vec<Quote>)>, t: Seq<char>, qs: Seq<Quote>)
    requires
        repo_find(entries, t) == Some(qs),
    ensures
        forall|ts: u64| q_has_ts(qs, ts) ==> repo_has_ts(entries, ts),
    decreases entries.len(),
{
    if entries.len() == 0 {
    } else if entries[0].0@ == t {
        assert(entries[0].1@ == qs);
        assert(forall|ts: u64| q_has_ts(qs, ts) ==> repo_has_ts(entries, ts)) by {
            assert(forall|ts: u64| #[trigger] q_has_ts(entries[0].1@, ts) ==> repo_has_ts(
                entries,
                ts,
            ));
        }
    } else {
        let tail = entries.drop_first();
        lemma_repo_find_has(tail, t, qs);
        assert(forall|ts: u64| repo_has_ts(tail, ts) ==> repo_has_ts(entries, ts)) by {
            assert(forall|ei: int| 0 <= ei < tail.len() ==> #[trigger] tail[ei] == entries[ei + 1]);
        }
    }
}

/// The replay of the clauses from index `k` on, each against its
/// ticker's history, failing loudly on a ticker with no history.
pub open spec fn gen_clauses(
    m: Seq<SignalRecV>,
    clauses: Seq<Seq<char>>,
    id: u128,
    target: Seq<char>,
    generation: i32,
    entries: Seq<(String, Vec<Quote>)>,
    k: int,
) -> Result<Seq<SignalRecV>, RunError>
    decreases clauses.len() - k,
{
    if k < 0 || k >= clauses.len() {
        Ok(m)
    } else {
        let parsed = spec_parse_clause(clauses[k])->Ok_0;
        match repo_find(entries, parsed.1) {
            None => Err(RunError::MissingTicker),
            Some(qs) => gen_clauses(
                apply_from(
                    m,
                    parsed.0,
                    id,
                    target,
                    generation,
                    clauses[k],
                    qs,
                    parsed.2 as int,
                    0,
                ),
                clauses,
                id,
                target,
                generation,
                entries,
                k + 1,
            ),
        }
    }
}

/// What evaluating a candidate's program against the repository
/// yields: the per-bar signal records, or the first fatal error — a
/// clause that does not parse, an unknown indicator code, or a
/// ticker with no bar history.
pub open spec fn spec_generate_signals(c: Chromosome, entries: Seq<(String, Vec<Quote>)>) -> Result<
    Seq<SignalRecV>,
    RunError,
> {
    let clauses = spec_split_clauses(c.chromosome@);
    match spec_expand_err(clauses) {
        Some(e) => Err(e),
        None => gen_clauses(
            Seq::empty(),
            clauses,
            c.id,
            c.target_ticker@,
            c.generation,
            entries,
            0,
        ),
    }
}

/// Splits the candidate's program into clauses and replays each one,
/// building the shared per-bar signal map.
pub fn generate_signals(chromosome: &Chromosome, quotes_repo: &QuotesRepo) -> (r: Result<
    SignalMap,
    RunError,
>)
    requires
        quotes_repo.wf(),
    ensures
        match r {
            Ok(m) => {
                &&& spec_generate_signals(*chromosome, quotes_repo.entries@) == Ok::<
                    Seq<SignalRecV>,
                    RunError,
                >(m.recs())
                &&& sm_wf(m.recs())
                &&& forall|i: int|
                    0 <= i < m.recs().len() ==> repo_has_ts(
                        quotes_repo.entries@,
                        (#[trigger] m.recs()[i]).ts,
                    )
            },
            Err(e) => spec_generate_signals(*chromosome, quotes_repo.entries@) == Err::<
                Seq<SignalRecV>,
                RunError,
            >(e),
        },
{
    let ghost entries = quotes_repo.entries@;
    let ghost clauses = spec_split_clauses(chromosome.chromosome@);
    let strategies = match expand_strategies(chromosome) {
        Ok(v) => v,
        Err(e) => {
            return Err(e);
        },
    };
    let mut trade_signals = SignalMap::new();
    let n = strategies.len();
    let mut i: usize = 0;
    while i < n
        invariant
            i <= n,
            n == strategies@.len(),
            n == clauses.len(),
            clauses == spec_split_clauses(chromosome.chromosome@),
            entries == quotes_repo.entries@,
            quotes_repo.wf(),
            spec_expand_err(clauses) is None,
            forall|k: int|
                0 <= k < n ==> crate::strategies::strat_matches(
                    #[trigger] strategies@[k],
                    *chromosome,
                    clauses[k],
                ),
            sm_wf(trade_signals.recs()),
            forall|r: int|
                0 <= r < trade_signals.recs().len() ==> repo_has_ts(
                    entries,
                    (#[trigger] trade_signals.recs()[r]).ts,
                ),
            gen_clauses(
                Seq::empty(),
                clauses,
                chromosome.id,
                chromosome.target_ticker@,
                chromosome.generation,
                entries,
                0,
            ) == gen_clauses(
                trade_signals.recs(),
                clauses,
                chromosome.id,
                chromosome.target_ticker@,
                chromosome.generation,
                entries,
                i as int,
            ),
        decreases n - i,
    {
        let strategy = &strategies[i];
        proof {
            assert(crate::strategies::strat_matches(strategies@[i as int], *chromosome, clauses[i as int]));
            assert(spec_parse_clause(clauses[i as int]) is Ok);
        }
        let quotes = match quotes_repo.get(&strategy.ticker) {
            Some(qs) => qs,
            None => {
                return Err(RunError::MissingTicker);
            },
        };
        let ghost m_before = trade_signals.recs();
        generate_strategy_signals(strategy, &mut trade_signals, quotes);
        proof {
            lemma_repo_find_has(entries, strategy.ticker@, quotes@);
            assert(forall|r: int|
                0 <= r < trade_signals.recs().len() ==> repo_has_ts(
                    entries,
                    (#[trigger] trade_signals.recs()[r]).ts,
                )) by {
                assert(forall|t: u64| ts_in(m_before, t) ==> repo_has_ts(entries, t));
                assert(forall|t: u64| q_has_ts(quotes@, t) ==> repo_has_ts(entries, t));
            }
        }
        i = i + 1;
    }
    Ok(trade_signals)
}

/// A record with its forward return merged in, when the table has one
/// for its bar.
pub open spec fn merge_rec(r: SignalRecV, entries: Seq<crate::schemas::Return>) -> SignalRecV {
    match crate::schemas::returns_find(entries, r.ts) {
        Some(x) => SignalRecV { ret: x.ret, ..r },
        None => r,
    }
}

/// Merges one record's forward return from the table, leaving it
/// unchanged when the bar has no recorded return.
pub fn update_merge_trade_signal(trade_signal: TradeSignal, rets: &ReturnsTable) -> (r:
    TradeSignal)
    requires
        rets.wf(),
    ensures
        r@ == merge_rec(trade_signal@, rets.entries@),
{
    match rets.get(trade_signal.ts) {
        Some(x) => TradeSignal {
            chromosome_id: trade_signal.chromosome_id,
            ts: trade_signal.ts,
            strategies: trade_signal.strategies,
            signals: trade_signal.signals,
            target_ticker: trade_signal.target_ticker,
            hard_signal: trade_signal.hard_signal,
            generation: trade_signal.generation,
            ret: x.ret,
            pnl: trade_signal.pnl,
        },
        None => trade_signal,
    }
}

/// Merges the target ticker's forward returns into every signal
/// record, keyed by the bar timestamp.
pub fn merge_returns(trade_signals: &mut SignalMap, rets: &ReturnsTable)
    requires
        sm_wf(old(trade_signals).recs()),
        rets.wf(),
    ensures
        final(trade_signals).recs().len() == old(trade_signals).recs().len(),
        forall|i: int|
            0 <= i < final(trade_signals).recs().len() ==> #[trigger] final(trade_signals).recs()[i]
                == merge_rec(old(trade_signals).recs()[i], rets.entries@),
        sm_wf(final(trade_signals).recs()),
{
    let ghost m0 = trade_signals.recs();
    let n = trade_signals.records.len();
    let mut i: usize = 0;
    while i < n
        invariant
            i <= n,
            n == trade_signals.records@.len(),
            rets.wf(),
            sm_wf(m0),
            forall|k: int|
                0 <= k < i ==> #[trigger] trade_signals.recs()[k] == merge_rec(
                    m0[k],
                    rets.entries@,
                ),
            forall|k: int| i <= k < n ==> #[trigger] trade_signals.recs()[k] == m0[k],
            sm_wf(trade_signals.recs()),
        decreases n - i,
    {
        let ghost cur = trade_signals.recs();
        let rec = trade_signals.records.remove(i);
        let merged = update_merge_trade_signal(rec, rets);
        trade_signals.records.insert(i, merged);
        proof {
            assert(rec_wf(merged@)) by {
                assert(rec_wf(cur[i as int]));
                if crate::schemas::returns_find(rets.entries@, cur[i as int].ts) is Some {
                    crate::schemas::lemma_returns_find_wf(rets.entries@, cur[i as int].ts);
                }
            }
            assert(trade_signals.recs() =~= cur.update(i as int, merged@));
        }
        i = i + 1;
    }
}

/// The sum of a record's 0/1 clause outcomes.
pub open spec fn sum_signals(s: Seq<i32>) -> int
    decreases s.len(),
{
    if s.len() == 0 {
        0
    } else {
        sum_signals(s.drop_last()) + s.last()
    }
}

fn signal_sum(signals: &Vec<i32>) -> (s: i128)
    ensures
        s == sum_signals(signals@),
{
    let mut s: i128 = 0;
    let mut i: usize = 0;
    proof {
        assert(signals@.take(0) =~= Seq::<i32>::empty());
    }
    while i < signals.len()
        invariant
            i <= signals@.len(),
            s == sum_signals(signals@.take(i as int)),
            -2_147_483_648 * (i as int) <= s <= 2_147_483_647 * (i as int),
        decreases signals@.len() - i,
    {
        proof {
            assert(signals@.take(i as int + 1).drop_last() =~= signals@.take(i as int));
            assert(signals@.take(i as int + 1).last() == signals@[i as int]);
        }
        s = s + signals[i] as i128;
        i = i + 1;
    }
    proof {
        assert(signals@.take(signals@.len() as int) =~= signals@);
    }
    s
}

/// A record after the hard-trigger pass: trigger 1 and pnl equal to
/// the merged forward return exactly when the recorded outcomes sum
/// to the candidate's clause count.
pub open spec fn calc_rec(r: SignalRecV, clause_len: int) -> SignalRecV {
    if sum_signals(r.signals) == clause_len {
        SignalRecV { hard_signal: 1, pnl: r.ret, ..r }
    } else {
        r
    }
}

/// Hard-trigger law: starting from an untriggered record with 0/1
/// outcomes, the pass sets the trigger exactly when the outcome sum
/// equals the clause count; and when at most `clause_len` clauses
/// touched the bar, a set trigger means every one of them fired.
pub proof fn lemma_hard_trigger(r: SignalRecV, clause_len: int)
    requires
        rec_wf(r),
        r.hard_signal == 0,
        r.signals.len() <= clause_len,
    ensures
        calc_rec(r, clause_len).hard_signal == 1 <==> sum_signals(r.signals) == clause_len,
        calc_rec(r, clause_len).hard_signal == 1 ==> r.signals.len() == clause_len && forall|i: int|
            0 <= i < r.signals.len() ==> r.signals[i] == 1,
{
    lemma_sum_signals_bounds(r.signals);
    if calc_rec(r, clause_len).hard_signal == 1 {
        if exists|i: int| 0 <= i < r.signals.len() && r.signals[i] != 1 {
            let i = choose|i: int| 0 <= i < r.signals.len() && r.signals[i] != 1;
            lemma_sum_signals_drop(r.signals, i);
        }
    }
}

/// 0/1 outcomes sum to at most their count.
proof fn lemma_sum_signals_bounds(s: Seq<i32>)
    requires
        forall|i: int| 0 <= i < s.len() ==> #[trigger] s[i] == 0 || s[i] == 1,
    ensures
        0 <= sum_signals(s) <= s.len(),
    decreases s.len(),
{
    if s.len() > 0 {
        assert(forall|i: int| 0 <= i < s.drop_last().len() ==> #[trigger] s.drop_last()[i] == s[i]);
        lemma_sum_signals_bounds(s.drop_last());
    }
}

/// With a 0 among 0/1 outcomes, the sum falls short of the count.
proof fn lemma_sum_signals_drop(s: Seq<i32>, i: int)
    requires
        forall|k: int| 0 <= k < s.len() ==> #[trigger] s[k] == 0 || s[k] == 1,
        0 <= i < s.len(),
        s[i] == 0,
    ensures
        sum_signals(s) < s.len(),
    decreases s.len(),
{
    assert(forall|k: int| 0 <= k < s.drop_last().len() ==> #[trigger] s.drop_last()[k] == s[k]);
    if i == s.len() - 1 {
        lemma_sum_signals_bounds(s.drop_last());
    } else {
        lemma_sum_signals_drop(s.drop_last(), i);
    }
}

/// Sets each bar's hard trigger and realized pnl: the trigger fires
/// exactly when every clause of the candidate fired on that bar, and
/// the pnl is then the bar's forward return, with unit sizing.
pub fn calc_pnl(trade_signals: &mut SignalMap, chromosome: &Chromosome)
    requires
        sm_wf(old(trade_signals).recs()),
    ensures
        final(trade_signals).recs().len() == old(trade_signals).recs().len(),
        forall|i: int|
            0 <= i < final(trade_signals).recs().len() ==> #[trigger] final(trade_signals).recs()[i]
                == calc_rec(old(trade_signals).recs()[i], chromosome.chromosome_length as int),
        sm_wf(final(trade_signals).recs()),
{
    let ghost m0 = trade_signals.recs();
    let n = trade_signals.records.len();
    let mut i: usize = 0;
    while i < n
        invariant
            i <= n,
            n == trade_signals.records@.len(),
            sm_wf(m0),
            forall|k: int|
                0 <= k < i ==> #[trigger] trade_signals.recs()[k] == calc_rec(
                    m0[k],
                    chromosome.chromosome_length as int,
                ),
            forall|k: int| i <= k < n ==> #[trigger] trade_signals.recs()[k] == m0[k],
            sm_wf(trade_signals.recs()),
        decreases n - i,
    {
        let ghost cur = trade_signals.recs();
        let rec = trade_signals.records.remove(i);
        let agg_signal = signal_sum(&rec.signals);
        let updated = if agg_signal == chromosome.chromosome_length as i128 {
            TradeSignal {
                chromosome_id: rec.chromosome_id,
                ts: rec.ts,
                strategies: rec.strategies,
                signals: rec.signals,
                target_ticker: rec.target_ticker,
                hard_signal: 1,
                generation: rec.generation,
                ret: rec.ret,
                pnl: rec.ret,
            }
        } else {
            rec
        };
        trade_signals.records.insert(i, updated);
        proof {
            assert(rec_wf(cur[i as int]));
            assert(updated@ == calc_rec(cur[i as int], chromosome.chromosome_length as int));
            assert(rec_wf(updated@));
            assert(trade_signals.recs() =~= cur.update(i as int, updated@));
        }
        i = i + 1;
    }
}

/// The hard-triggered records, in timestamp order.
pub open spec fn sig_recs(s: Seq<SignalRecV>) -> Seq<SignalRecV>
    decreases s.len(),
{
    if s.len() == 0 {
        Seq::empty()
    } else if s.last().hard_signal == 1 {
        sig_recs(s.drop_last()).push(s.last())
    } else {
        sig_recs(s.drop_last())
    }
}

/// There are no more triggered bars than bars.
pub proof fn lemma_sig_recs_len(s: Seq<SignalRecV>)
    ensures
        sig_recs(s).len() <= s.len(),
    decreases s.len(),
{
    if s.len() > 0 {
        lemma_sig_recs_len(s.drop_last());
    }
}

/// The sum of realized pnl over records.
pub open spec fn sum_pnl(s: Seq<SignalRecV>) -> int
    decreases s.len(),
{
    if s.len() == 0 {
        0
    } else {
        sum_pnl(s.drop_last()) + s.last().pnl
    }
}

/// The squared-deviation sum `(n*p - cum)^2` over realized pnl;
/// divided by `n^3` it is the population variance of the `n` values.
pub open spec fn sqdev_pnl(s: Seq<SignalRecV>, n: int, cum: int) -> int
    decreases s.len(),
{
    if s.len() == 0 {
        0
    } else {
        sqdev_pnl(s.drop_last(), n, cum) + (n * s.last().pnl - cum) * (n * s.last().pnl - cum)
    }
}

/// How many records closed with a gain.
pub open spec fn count_winning(s: Seq<SignalRecV>) -> int
    decreases s.len(),
{
    if s.len() == 0 {
        0
    } else {
        count_winning(s.drop_last()) + if s.last().pnl > 0 {
            1int
        } else {
            0int
        }
    }
}

/// How many records closed with a loss.
pub open spec fn count_losing(s: Seq<SignalRecV>) -> int
    decreases s.len(),
{
    if s.len() == 0 {
        0
    } else {
        count_losing(s.drop_last()) + if s.last().pnl < 0 {
            1int
        } else {
            0int
        }
    }
}

/// The records a vector of owned signals stands for.
pub open spec fn recs_of(s: Seq<TradeSignal>) -> Seq<SignalRecV> {
    s.map_values(|t: TradeSignal| t@)
}

/// The mean realized return of the triggered trades: their pnl sum
/// over their count, and zero when there were no trades.
pub fn mean_return(signaled_trades: &Vec<TradeSignal>) -> (r: Ratio)
    requires
        signaled_trades@.len() <= MAX_BARS,
        forall|i: int|
            0 <= i < signaled_trades@.len() ==> rec_wf((#[trigger] signaled_trades@[i])@),
    ensures
        signaled_trades@.len() == 0 ==> r.num == 0 && r.den == 1,
        signaled_trades@.len() > 0 ==> r.num == sum_pnl(recs_of(signaled_trades@)) && r.den
            == signaled_trades@.len(),
        r.wf(),
        -100_000_000 * signaled_trades@.len() <= r.num <= 100_000_000 * signaled_trades@.len(),
        -100_000_000_000_000 <= r.num <= 100_000_000_000_000,
        r.den <= 200_000,
{
    let ghost s = recs_of(signaled_trades@);
    let n = signaled_trades.len();
    if n == 0 {
        return Ratio::zero();
    }
    let mut cum: i64 = 0;
    let mut i: usize = 0;
    proof {
        assert(s.take(0) =~= Seq::<SignalRecV>::empty());
    }
    while i < n
        invariant
            i <= n,
            n == signaled_trades@.len() <= MAX_BARS,
            s == recs_of(signaled_trades@),
            forall|k: int|
                0 <= k < signaled_trades@.len() ==> rec_wf((#[trigger] signaled_trades@[k])@),
            cum == sum_pnl(s.take(i as int)),
            -100_000_000 * (i as int) <= cum <= 100_000_000 * (i as int),
        decreases n - i,
    {
        proof {
            assert(s.take(i as int + 1).drop_last() =~= s.take(i as int));
            assert(s.take(i as int + 1).last() == s[i as int]);
            assert(s[i as int] == signaled_trades@[i as int]@);
        }
        cum = cum + signaled_trades[i].pnl;
        i = i + 1;
    }
    proof {
        assert(s.take(n as int) =~= s);
    }
    Ratio::new(cum as i128, n as i128)
}

/// The population variance of the triggered trades' pnl around their
/// mean, as the exact rational `t / n^3` with
/// `t = sum((n*pnl - cum)^2)`; zero when there were no trades.
pub fn variance(signaled_trades: &Vec<TradeSignal>) -> (r: Ratio)
    requires
        signaled_trades@.len() <= MAX_BARS,
        forall|i: int|
            0 <= i < signaled_trades@.len() ==> rec_wf((#[trigger] signaled_trades@[i])@),
    ensures
        signaled_trades@.len() == 0 ==> r.num == 0 && r.den == 1,
        signaled_trades@.len() > 0 ==> {
            let s = recs_of(signaled_trades@);
            let n = s.len() as int;
            r.num == sqdev_pnl(s, n, sum_pnl(s)) && r.den == n * n * n
        },
        r.wf(),
        0 <= r.num <= 400_000_000_000_000_000_000_000_000_000_000,
        1 <= r.den <= 10_000_000_000_000_000,
{
    let ghost s = recs_of(signaled_trades@);
    let n = signaled_trades.len();
    if n == 0 {
        return Ratio::zero();
    }
    let mean_ratio = mean_return(signaled_trades);
    let cum: i128 = mean_ratio.num;
    let nc: i128 = n as i128;
    let mut t: i128 = 0;
    let mut i: usize = 0;
    proof {
        assert(s.take(0) =~= Seq::<SignalRecV>::empty());
    }
    while i < n
        invariant
            i <= n,
            0 < n == signaled_trades@.len() <= MAX_BARS,
            s == recs_of(signaled_trades@),
            forall|k: int|
                0 <= k < signaled_trades@.len() ==> rec_wf((#[trigger] signaled_trades@[k])@),
            nc == n,
            cum == sum_pnl(s),
            -20_000_000_000_000 <= cum <= 20_000_000_000_000,
            t == sqdev_pnl(s.take(i as int), n as int, cum as int),
            0 <= t <= 1_600_000_000_000_000_000_000_000_000 * (i as int),
        decreases n - i,
    {
        proof {
            assert(s.take(i as int + 1).drop_last() =~= s.take(i as int));
            assert(s.take(i as int + 1).last() == s[i as int]);
            assert(s[i as int] == signaled_trades@[i as int]@);
        }
        let p = signaled_trades[i].pnl as i128;
        proof {
            assert(-20_000_000_000_000 <= nc * p <= 20_000_000_000_000) by (nonlinear_arith)
                requires
                    0 <= nc <= 200_000,
                    -100_000_000 <= p <= 100_000_000,
            ;
        }
        let dev = nc * p - cum;
        proof {
            assert(0 <= dev * dev <= 1_600_000_000_000_000_000_000_000_000) by (nonlinear_arith)
                requires
                    -40_000_000_000_000 <= dev <= 40_000_000_000_000,
            ;
        }
        t = t + dev * dev;
        i = i + 1;
    }
    proof {
        assert(s.take(n as int) =~= s);
        assert(1 <= nc * nc <= 40_000_000_000) by (nonlinear_arith)
            requires
                1 <= nc <= 200_000,
        ;
        assert(1 <= (nc * nc) * nc <= 8_000_000_000_000_000) by (nonlinear_arith)
            requires
                1 <= nc <= 200_000,
                1 <= nc * nc <= 40_000_000_000,
        ;
    }
    Ratio::new(t, nc * nc * nc)
}

/// How many triggered trades closed with a gain.
pub fn winning_trades(signaled_trades: &Vec<TradeSignal>) -> (w: i32)
    requires
        signaled_trades@.len() <= MAX_BARS,
    ensures
        w == count_winning(recs_of(signaled_trades@)),
        0 <= w <= signaled_trades@.len(),
{
    let ghost s = recs_of(signaled_trades@);
    let n = signaled_trades.len();
    let mut w: i32 = 0;
    let mut i: usize = 0;
    proof {
        assert(s.take(0) =~= Seq::<SignalRecV>::empty());
    }
    while i < n
        invariant
            i <= n,
            n == signaled_trades@.len() <= MAX_BARS,
            s == recs_of(signaled_trades@),
            w == count_winning(s.take(i as int)),
            0 <= w <= i,
        decreases n - i,
    {
        proof {
            assert(s.take(i as int + 1).drop_last() =~= s.take(i as int));
            assert(s.take(i as int + 1).last() == s[i as int]);
            assert(s[i as int] == signaled_trades@[i as int]@);
        }
        if signaled_trades[i].pnl > 0 {
            w = w + 1;
        }
        i = i + 1;
    }
    proof {
        assert(s.take(n as int) =~= s);
    }
    w
}

/// How many triggered trades closed with a loss.
pub fn losing_trades(signaled_trades: &Vec<TradeSignal>) -> (w: i32)
    requires
        signaled_trades@.len() <= MAX_BARS,
    ensures
        w == count_losing(recs_of(signaled_trades@)),
        0 <= w <= signaled_trades@.len(),
{
    let ghost s = recs_of(signaled_trades@);
    let n = signaled_trades.len();
    let mut w: i32 = 0;
    let mut i: usize = 0;
    proof {
        assert(s.take(0) =~= Seq::<SignalRecV>::empty());
    }
    while i < n
        invariant
            i <= n,
            n == signaled_trades@.len() <= MAX_BARS,
            s == recs_of(signaled_trades@),
            w == count_losing(s.take(i as int)),
            0 <= w <= i,
        decreases n - i,
    {
        proof {
            assert(s.take(i as int + 1).drop_last() =~= s.take(i as int));
            assert(s.take(i as int + 1).last() == s[i as int]);
            assert(s[i as int] == signaled_trades@[i as int]@);
        }
        if signaled_trades[i].pnl < 0 {
            w = w + 1;
        }
        i = i + 1;
    }
    proof {
        assert(s.take(n as int) =~= s);
    }
    w
}

/// The share of winners among the trades: winners over trade count,
/// and zero when there were no trades.
pub fn percentage_winners(num_winners: i32, num_of_trades: i32) -> (r: Ratio)
    ensures
        num_of_trades <= 0 ==> r.num == 0 && r.den == 1,
        num_of_trades > 0 ==> r.num == num_winners && r.den == num_of_trades,
        r.wf(),
{
    if num_of_trades <= 0 {
        return Ratio::zero();
    }
    Ratio::new(num_winners as i128, num_of_trades as i128)
}

/// The total number of bars the repository holds, over all tickers.
pub open spec fn total_bars(entries: Seq<(String, Vec<Quote>)>) -> int
    decreases entries.len(),
{
    if entries.len() == 0 {
        0
    } else {
        entries[0].1@.len() + total_bars(entries.drop_first())
    }
}

/// The repository fits the machine limit on bars, so every signal
/// map built from it does too.
pub open spec fn repo_bounded(entries: Seq<(String, Vec<Quote>)>) -> bool {
    total_bars(entries) <= MAX_BARS
}

/// All bar timestamps the repository holds.
pub open spec fn repo_ts_set(entries: Seq<(String, Vec<Quote>)>) -> Set<u64>
    decreases entries.len(),
{
    if entries.len() == 0 {
        Set::empty()
    } else {
        entries[0].1@.map_values(|q: Quote| q.ts).to_set().union(repo_ts_set(entries.drop_first()))
    }
}

proof fn lemma_repo_ts_set_card(entries: Seq<(String, Vec<Quote>)>)
    ensures
        repo_ts_set(entries).finite(),
        repo_ts_set(entries).len() <= total_bars(entries),
    decreases entries.len(),
{
    if entries.len() > 0 {
        let head = entries[0].1@.map_values(|q: Quote| q.ts);
        vstd::seq_lib::seq_to_set_is_finite(head);
        head.lemma_cardinality_of_set();
        lemma_repo_ts_set_card(entries.drop_first());
        vstd::set_lib::lemma_len_union(head.to_set(), repo_ts_set(entries.drop_first()));
    }
}

proof fn lemma_repo_has_in_set(entries: Seq<(String, Vec<Quote>)>, ts: u64)
    requires
        repo_has_ts(entries, ts),
    ensures
        repo_ts_set(entries).contains(ts),
    decreases entries.len(),
{
    let ei = choose|ei: int| 0 <= ei < entries.len() && q_has_ts(entries[ei].1@, ts);
    let head = entries[0].1@.map_values(|q: Quote| q.ts);
    if ei == 0 {
        let j = choose|j: int| 0 <= j < entries[0].1@.len() && entries[0].1@[j].ts == ts;
        assert(head[j] == ts);
        assert(head.contains(ts));
        assert(head.to_set().contains(ts));
    } else {
        assert(q_has_ts(entries.drop_first()[ei - 1].1@, ts)) by {
            assert(entries.drop_first()[ei - 1] == entries[ei]);
        }
        assert(repo_has_ts(entries.drop_first(), ts));
        lemma_repo_has_in_set(entries.drop_first(), ts);
    }
}

/// A signal map whose timestamps all come from the repository holds
/// no more records than the repository holds bars: its keys are
/// distinct and drawn from the repository's bar timestamps.
pub proof fn lemma_map_len_bounded(s: Seq<SignalRecV>, entries: Seq<(String, Vec<Quote>)>)
    requires
        sm_wf(s),
        forall|i: int| 0 <= i < s.len() ==> repo_has_ts(entries, (#[trigger] s[i]).ts),
    ensures
        s.len() <= total_bars(entries),
{
    let tseq = s.map_values(|r: SignalRecV| r.ts);
    assert(tseq.no_duplicates()) by {
        assert(forall|i: int, j: int|
            0 <= i < j < s.len() ==> tseq[i] != tseq[j]) by {
            assert(forall|i: int, j: int| 0 <= i < j < s.len() ==> s[i].ts < s[j].ts);
        }
        assert(forall|i: int, j: int|
            0 <= i < tseq.len() && 0 <= j < tseq.len() && i != j ==> tseq[i] != tseq[j]);
    }
    tseq.unique_seq_to_set();
    lemma_repo_ts_set_card(entries);
    assert(tseq.to_set().subset_of(repo_ts_set(entries))) by {
        assert forall|t: u64| tseq.to_set().contains(t) implies repo_ts_set(entries).contains(
            t,
        ) by {
            assert(tseq.contains(t));
            let i = choose|i: int| 0 <= i < tseq.len() && tseq[i] == t;
            assert(s[i].ts == t);
            lemma_repo_has_in_set(entries, t);
        }
    }
    vstd::set_lib::lemma_len_subset(tseq.to_set(), repo_ts_set(entries));
}

/// The fitness record `out` carries exactly the aggregates of the
/// evaluated signal records `all` of candidate `c`: sums, mean,
/// variance, kelly and its frequency-weighted form, win counts and
/// win percentage, computed over the hard-triggered bars alone, with
/// every quotient an exact rational and every zero-denominator case
/// pinned to zero.
pub open spec fn spec_fitness(out: Chromosome, c: Chromosome, all: Seq<SignalRecV>) -> bool {
    let s = sig_recs(all);
    let n = s.len() as int;
    let cum = sum_pnl(s);
    let t = sqdev_pnl(s, n, cum);
    let total = all.len() as int;
    let wins = count_winning(s);
    &&& out.cum_pnl == cum
    &&& out.num_of_trades == n
    &&& out.mean_return == (if n == 0 {
        (Ratio { num: 0, den: 1 })
    } else {
        (Ratio { num: cum as i128, den: n as i128 })
    })
    &&& out.variance == (if n == 0 {
        (Ratio { num: 0, den: 1 })
    } else {
        (Ratio { num: t as i128, den: (n * n * n) as i128 })
    })
    &&& out.kelly == (if n == 0 || t == 0 {
        (Ratio { num: 0, den: 1 })
    } else {
        (Ratio { num: (cum * (n * n * n)) as i128, den: (n * t) as i128 })
    })
    &&& out.w_kelly == (if n == 0 || t == 0 || total == 0 {
        (Ratio { num: 0, den: 1 })
    } else {
        (Ratio { num: (cum * (n * n * n)) as i128, den: (t * total) as i128 })
    })
    &&& out.winning_trades == wins
    &&& out.losing_trades == count_losing(s)
    &&& out.percentage_winners == (if n == 0 {
        (Ratio { num: 0, den: 1 })
    } else {
        (Ratio { num: wins as i128, den: n as i128 })
    })
    &&& out.id == c.id
    &&& out.target_ticker == c.target_ticker
    &&& out.chromosome == c.chromosome
    &&& out.dna == c.dna
    &&& out.generation == c.generation
    &&& out.chromosome_length == c.chromosome_length
    &&& out.rank == c.rank
    &&& out.mean_return.wf() && out.variance.wf() && out.kelly.wf() && out.w_kelly.wf()
        && out.percentage_winners.wf()
    &&& out.percentage_winners.small()
}

/// The fitness record as a value: `spec_fitness` pins every field,
/// so the decorated candidate is this construction and nothing else.
pub open spec fn fitness_of(c: Chromosome, all: Seq<SignalRecV>) -> Chromosome {
    let s = sig_recs(all);
    let n = s.len() as int;
    let cum = sum_pnl(s);
    let t = sqdev_pnl(s, n, cum);
    let total = all.len() as int;
    let wins = count_winning(s);
    Chromosome {
        id: c.id,
        target_ticker: c.target_ticker,
        chromosome: c.chromosome,
        dna: c.dna,
        generation: c.generation,
        chromosome_length: c.chromosome_length,
        kelly: if n == 0 || t == 0 {
            Ratio { num: 0, den: 1 }
        } else {
            Ratio { num: (cum * (n * n * n)) as i128, den: (n * t) as i128 }
        },
        cum_pnl: cum as i64,
        variance: if n == 0 {
            Ratio { num: 0, den: 1 }
        } else {
            Ratio { num: t as i128, den: (n * n * n) as i128 }
        },
        mean_return: if n == 0 {
            Ratio { num: 0, den: 1 }
        } else {
            Ratio { num: cum as i128, den: n as i128 }
        },
        w_kelly: if n == 0 || t == 0 || total == 0 {
            Ratio { num: 0, den: 1 }
        } else {
            Ratio { num: (cum * (n * n * n)) as i128, den: (t * total) as i128 }
        },
        num_of_trades: n as i32,
        winning_trades: wins as i32,
        losing_trades: count_losing(s) as i32,
        percentage_winners: if n == 0 {
            Ratio { num: 0, den: 1 }
        } else {
            Ratio { num: wins as i128, den: n as i128 }
        },
        rank: c.rank,
    }
}

/// `spec_fitness` admits exactly one record for given inputs.
pub proof fn lemma_fitness_unique(out: Chromosome, c: Chromosome, all: Seq<SignalRecV>)
    requires
        spec_fitness(out, c, all),
    ensures
        out == fitness_of(c, all),
{
    let fo = fitness_of(c, all);
    assert(out.cum_pnl == fo.cum_pnl);
    assert(out.num_of_trades == fo.num_of_trades);
    assert(out.winning_trades == fo.winning_trades);
    assert(out.losing_trades == fo.losing_trades);
    assert(out.mean_return == fo.mean_return);
    assert(out.variance == fo.variance);
    assert(out.kelly == fo.kelly);
    assert(out.w_kelly == fo.w_kelly);
    assert(out.percentage_winners == fo.percentage_winners);
}

/// Decorates a fully replayed candidate with its fitness record,
/// aggregated over the hard-triggered bars alone.
pub fn update_chromosome(chromosome: Chromosome, trade_signals: SignalMap) -> (out: Chromosome)
    requires
        sm_wf(trade_signals.recs()),
        trade_signals.recs().len() <= MAX_BARS,
    ensures
        spec_fitness(out, chromosome, trade_signals.recs()),
    {
    let ghost all = trade_signals.recs();
    let SignalMap { records } = trade_signals;
    let mut records = records;
    let total_trade_signals = records.len();
    let ghost orig = records@;
    let mut signaled_trades: Vec<TradeSignal> = Vec::new();
    let mut i: usize = 0;
    proof {
        assert(crate::trade_signal::sm_recs(orig).take(0) =~= Seq::<SignalRecV>::empty());
        assert(orig.skip(0) =~= orig);
    }
    while records.len() > 0
        invariant
            i <= orig.len(),
            records@ == orig.skip(i as int),
            all == crate::trade_signal::sm_recs(orig),
            sm_wf(all),
            all.len() == orig.len() <= MAX_BARS,
            recs_of(signaled_trades@) == sig_recs(all.take(i as int)),
            signaled_trades@.len() <= i,
            forall|k: int|
                0 <= k < signaled_trades@.len() ==> rec_wf((#[trigger] signaled_trades@[k])@),
        decreases records@.len(),
    {
        let rec = records.remove(0);
        proof {
            assert(orig.skip(i as int)[0] == orig[i as int]);
            assert(orig.skip(i as int).drop_first() =~= orig.skip(i as int + 1));
            assert(all.take(i as int + 1).drop_last() =~= all.take(i as int));
            assert(all.take(i as int + 1).last() == all[i as int]);
            assert(rec@ == all[i as int]);
            assert(rec_wf(all[i as int]));
        }
        if rec.hard_signal == 1 {
            let ghost before = signaled_trades@;
            signaled_trades.push(rec);
            proof {
                assert(recs_of(signaled_trades@) =~= recs_of(before).push(all[i as int]));
            }
        }
        proof {
            assert(recs_of(signaled_trades@) == sig_recs(all.take(i as int + 1)));
        }
        i = i + 1;
    }
    proof {
        assert(all.take(orig.len() as int) =~= all);
        lemma_sig_recs_len(all);
    }
    let ghost s = sig_recs(all);
    let n = signaled_trades.len();
    let mut cum: i64 = 0;
    let mut j: usize = 0;
    proof {
        assert(s.take(0) =~= Seq::<SignalRecV>::empty());
    }
    while j < n
        invariant
            j <= n,
            n == signaled_trades@.len() <= MAX_BARS,
            s == recs_of(signaled_trades@),
            forall|k: int|
                0 <= k < signaled_trades@.len() ==> rec_wf((#[trigger] signaled_trades@[k])@),
            cum == sum_pnl(s.take(j as int)),
            -100_000_000 * (j as int) <= cum <= 100_000_000 * (j as int),
        decreases n - j,
    {
        proof {
            assert(s.take(j as int + 1).drop_last() =~= s.take(j as int));
            assert(s.take(j as int + 1).last() == s[j as int]);
            assert(s[j as int] == signaled_trades@[j as int]@);
        }
        cum = cum + signaled_trades[j].pnl;
        j = j + 1;
    }
    proof {
        assert(s.take(n as int) =~= s);
    }
    let mean_ratio = mean_return(&signaled_trades);
    let variance_ratio = variance(&signaled_trades);
    let kelly_ratio = crate::calc::kelly(mean_ratio, variance_ratio);
    let num_of_trades = n as i32;
    let wins = winning_trades(&signaled_trades);
    let losses = losing_trades(&signaled_trades);
    let pct = percentage_winners(wins, num_of_trades);
    let w_kelly: Ratio = if n == 0 || variance_ratio.num == 0 || total_trade_signals == 0 {
        Ratio::zero()
    } else {
        let nc = n as i128;
        let tc = variance_ratio.num;
        proof {
            assert(1 <= nc * nc <= 40_000_000_000) by (nonlinear_arith)
                requires
                    1 <= nc <= 200_000,
            ;
            assert(1 <= (nc * nc) * nc <= 8_000_000_000_000_000) by (nonlinear_arith)
                requires
                    1 <= nc <= 200_000,
                    1 <= nc * nc <= 40_000_000_000,
            ;
            assert(-200_000_000_000_000_000_000_000_000_000 <= (cum as i128) * (nc * nc * nc)
                <= 200_000_000_000_000_000_000_000_000_000) by (nonlinear_arith)
                requires
                    -20_000_000_000_000 <= cum as i128 <= 20_000_000_000_000,
                    1 <= nc * nc * nc <= 8_000_000_000_000_000,
            ;
            assert(1 <= tc * (total_trade_signals as i128)
                <= 80_000_000_000_000_000_000_000_000_000_000_000_000) by (nonlinear_arith)
                requires
                    1 <= tc <= 400_000_000_000_000_000_000_000_000_000_000,
                    1 <= total_trade_signals as i128 <= 200_000,
            ;
        }
        Ratio::new((cum as i128) * (nc * nc * nc), tc * (total_trade_signals as i128))
    };
    let kelly_final: Ratio = if n == 0 || variance_ratio.num == 0 {
        Ratio::zero()
    } else {
        kelly_ratio
    };
    proof {
        if n > 0 && variance_ratio.num != 0 {
            assert(kelly_final == kelly_ratio);
        }
    }
    Chromosome {
        id: chromosome.id,
        target_ticker: chromosome.target_ticker,
        chromosome: chromosome.chromosome,
        dna: chromosome.dna,
        generation: chromosome.generation,
        chromosome_length: chromosome.chromosome_length,
        kelly: kelly_final,
        cum_pnl: cum,
        variance: variance_ratio,
        mean_return: mean_ratio,
        w_kelly,
        num_of_trades,
        winning_trades: wins,
        losing_trades: losses,
        percentage_winners: pct,
        rank: chromosome.rank,
    }
}

} // verus!
