//! Trading strategies: the closed set of indicator codes, the exact
//! meaning of each indicator signal, and the parsing of decoded
//! program text into clauses.
//!
//! Every indicator is a pure 0/1 function of a window of prior bars,
//! the current bar, and the clause parameter.  The standard-deviation
//! tiers compare the close-to-close move `d` against the population
//! standard deviation σ of the window's close differences; with
//! integer prices those comparisons are written cross-multiplied, so
//! `d >= 2σ` becomes `d >= 0 && d*d*m^3 >= 4*t` where `t/m^3` is the
//! population variance of the `m` differences.

use vstd::prelude::*;

use crate::chromosome::Chromosome;
use crate::decimal::spec_parse_i32;
use crate::errors::RunError;
use crate::schemas::Quote;
use crate::text::spec_split_clauses;
use crate::text::spec_split_fields;
use crate::text::split_clauses;
use crate::text::split_fields;
use crate::text::str_eq;
use crate::text::views;
use crate::decimal::parse_i32;
use crate::schemas::quote_wf;
use crate::schemas::quotes_wf;
use crate::trade_signal::init_rec;
use crate::trade_signal::sm_wf;
use crate::trade_signal::ts_in;
use crate::trade_signal::upsert_rec;
use crate::trade_signal::SignalMap;
use crate::trade_signal::SignalRecV;
use crate::window::diff;
use crate::window::make_window;
use crate::window::window_wf;
use crate::window::Window;

pub mod above_ma;
pub mod below_ma;
pub mod con_down_days;
pub mod con_up_days;
pub mod gap_down_days;
pub mod gap_up_days;
pub mod highest_high_value;
pub mod lowest_low_value;
pub mod stddev_a;
pub mod stddev_b;
pub mod stddev_d;
pub mod stddev_f;

verus! {

/// The closed set of indicator codes a clause may name.
#[derive(Clone, Copy, Debug, PartialEq, Eq, Structural)]
pub enum Indicator {
    Hhv,
    Llv,
    ConUpDays,
    ConDownDays,
    GapUp,
    GapDown,
    AboveMa,
    BelowMa,
    StdevA,
    StdevB,
    StdevD,
    StdevF,
}

/// The indicator an indicator-code string names, if any.
pub open spec fn indicator_of(code: Seq<char>) -> Option<Indicator> {
    if code == "hhv"@ {
        Some(Indicator::Hhv)
    } else if code == "llv"@ {
        Some(Indicator::Llv)
    } else if code == "conupdays"@ {
        Some(Indicator::ConUpDays)
    } else if code == "condowndays"@ {
        Some(Indicator::ConDownDays)
    } else if code == "gapup"@ {
        Some(Indicator::GapUp)
    } else if code == "gapdown"@ {
        Some(Indicator::GapDown)
    } else if code == "abovema"@ {
        Some(Indicator::AboveMa)
    } else if code == "belowma"@ {
        Some(Indicator::BelowMa)
    } else if code == "stdeva"@ {
        Some(Indicator::StdevA)
    } else if code == "stdevb"@ {
        Some(Indicator::StdevB)
    } else if code == "stdevd"@ {
        Some(Indicator::StdevD)
    } else if code == "stdevf"@ {
        Some(Indicator::StdevF)
    } else {
        None
    }
}

/// Looks an indicator code up: the constructor at the grammar /
/// evaluator boundary, keeping string matching out of the hot path.
pub fn lookup_indicator(code: &str) -> (r: Option<Indicator>)
    ensures
        r == indicator_of(code@),
{
    if str_eq(code, "hhv") {
        Some(Indicator::Hhv)
    } else if str_eq(code, "llv") {
        Some(Indicator::Llv)
    } else if str_eq(code, "conupdays") {
        Some(Indicator::ConUpDays)
    } else if str_eq(code, "condowndays") {
        Some(Indicator::ConDownDays)
    } else if str_eq(code, "gapup") {
        Some(Indicator::GapUp)
    } else if str_eq(code, "gapdown") {
        Some(Indicator::GapDown)
    } else if str_eq(code, "abovema") {
        Some(Indicator::AboveMa)
    } else if str_eq(code, "belowma") {
        Some(Indicator::BelowMa)
    } else if str_eq(code, "stdeva") {
        Some(Indicator::StdevA)
    } else if str_eq(code, "stdevb") {
        Some(Indicator::StdevB)
    } else if str_eq(code, "stdevd") {
        Some(Indicator::StdevD)
    } else if str_eq(code, "stdevf") {
        Some(Indicator::StdevF)
    } else {
        None
    }
}

/// The greatest high of a non-empty window.
pub open spec fn max_high(w: Seq<Quote>) -> int
    decreases w.len(),
{
    if w.len() <= 1 {
        w[0].high as int
    } else {
        let m = max_high(w.drop_last());
        if w.last().high as int > m {
            w.last().high as int
        } else {
            m
        }
    }
}

/// The least low of a non-empty window.
pub open spec fn min_low(w: Seq<Quote>) -> int
    decreases w.len(),
{
    if w.len() <= 1 {
        w[0].low as int
    } else {
        let m = min_low(w.drop_last());
        if (w.last().low as int) < m {
            w.last().low as int
        } else {
            m
        }
    }
}

/// The sum of a window's closes.
pub open spec fn sum_close(w: Seq<Quote>) -> int
    decreases w.len(),
{
    if w.len() == 0 {
        0
    } else {
        sum_close(w.drop_last()) + w.last().close as int
    }
}

/// Up-transitions of closes across a flattened sequence.
pub open spec fn count_up(q: Seq<Quote>) -> int
    decreases q.len(),
{
    if q.len() <= 1 {
        0
    } else {
        count_up(q.drop_last()) + if q.last().close > q[q.len() - 2].close {
            1int
        } else {
            0int
        }
    }
}

/// Down-transitions of closes across a flattened sequence.
pub open spec fn count_down(q: Seq<Quote>) -> int
    decreases q.len(),
{
    if q.len() <= 1 {
        0
    } else {
        count_down(q.drop_last()) + if q.last().close < q[q.len() - 2].close {
            1int
        } else {
            0int
        }
    }
}

/// Bars whose open gaps above the previous close.
pub open spec fn count_gap_up(q: Seq<Quote>) -> int
    decreases q.len(),
{
    if q.len() <= 1 {
        0
    } else {
        count_gap_up(q.drop_last()) + if q.last().open > q[q.len() - 2].close {
            1int
        } else {
            0int
        }
    }
}

/// Bars whose open gaps below the previous close.
pub open spec fn count_gap_down(q: Seq<Quote>) -> int
    decreases q.len(),
{
    if q.len() <= 1 {
        0
    } else {
        count_gap_down(q.drop_last()) + if q.last().open < q[q.len() - 2].close {
            1int
        } else {
            0int
        }
    }
}

/// The close-to-close differences within a non-empty window.
pub open spec fn dseq(w: Seq<Quote>) -> Seq<int> {
    Seq::new((w.len() - 1) as nat, |i: int| w[i + 1].close - w[i].close)
}

/// The sum of a sequence of integers.
pub open spec fn sum_int(s: Seq<int>) -> int
    decreases s.len(),
{
    if s.len() == 0 {
        0
    } else {
        sum_int(s.drop_last()) + s.last()
    }
}

/// The sum of squared scaled deviations `(m*s[i] - total)^2`; divided
/// by `m^3` this is the population variance of the `m` values.
pub open spec fn sqdev_sum(s: Seq<int>, m: int, total: int) -> int
    decreases s.len(),
{
    if s.len() == 0 {
        0
    } else {
        sqdev_sum(s.drop_last(), m, total) + (m * s.last() - total) * (m * s.last() - total)
    }
}

/// `d >= 2σ`, cross-multiplied: σ² is `t / m³`.
pub open spec fn band_a(d: int, t: int, m: int) -> bool {
    d >= 0 && d * d * m * m * m >= 4 * t
}

/// `σ <= d < 2σ`, cross-multiplied.
pub open spec fn band_b(d: int, t: int, m: int) -> bool {
    d >= 0 && d * d * m * m * m >= t && d * d * m * m * m < 4 * t
}

/// `-2σ < d <= -σ`, cross-multiplied.
pub open spec fn band_d(d: int, t: int, m: int) -> bool {
    d <= 0 && d * d * m * m * m >= t && d * d * m * m * m < 4 * t
}

/// `d <= -2σ`, cross-multiplied.
pub open spec fn band_f(d: int, t: int, m: int) -> bool {
    d <= 0 && d * d * m * m * m >= 4 * t
}

/// The 0/1 signal an indicator yields for one window.  A window with
/// no prior bars triggers nothing; a standard-deviation tier with
/// fewer than two prior bars (no close difference to measure) also
/// triggers nothing.
pub open spec fn spec_signal(ind: Indicator, w: Seq<Quote>, c: Quote, param: int) -> int {
    if w.len() == 0 {
        0
    } else {
        match ind {
            Indicator::Hhv => if c.close > max_high(w) {
                1int
            } else {
                0int
            },
            Indicator::Llv => if (c.close as int) < min_low(w) {
                1int
            } else {
                0int
            },
            Indicator::ConUpDays => if count_up(w.push(c)) == param {
                1int
            } else {
                0int
            },
            Indicator::ConDownDays => if count_down(w.push(c)) == param {
                1int
            } else {
                0int
            },
            Indicator::GapUp => if count_gap_up(w.push(c)) == param {
                1int
            } else {
                0int
            },
            Indicator::GapDown => if count_gap_down(w.push(c)) == param {
                1int
            } else {
                0int
            },
            Indicator::AboveMa => if c.close * w.len() > sum_close(w) {
                1int
            } else {
                0int
            },
            Indicator::BelowMa => if c.close * w.len() < sum_close(w) {
                1int
            } else {
                0int
            },
            Indicator::StdevA => stdev_signal_a(w, c),
            Indicator::StdevB => stdev_signal_b(w, c),
            Indicator::StdevD => stdev_signal_d(w, c),
            Indicator::StdevF => stdev_signal_f(w, c),
        }
    }
}

/// The ingredients of the standard-deviation tiers: the count of
/// close differences, their sum, the squared-deviation sum, and the
/// current close-to-close move.
pub open spec fn stdev_m(w: Seq<Quote>) -> int {
    w.len() - 1
}

/// See `stdev_m`.
pub open spec fn stdev_t(w: Seq<Quote>) -> int {
    sqdev_sum(dseq(w), stdev_m(w), sum_int(dseq(w)))
}

/// See `stdev_m`.
pub open spec fn stdev_d_cur(w: Seq<Quote>, c: Quote) -> int {
    c.close - w.last().close
}

/// See `spec_signal`.
pub open spec fn stdev_signal_a(w: Seq<Quote>, c: Quote) -> int {
    if stdev_m(w) == 0 {
        0
    } else if band_a(stdev_d_cur(w, c), stdev_t(w), stdev_m(w)) {
        1
    } else {
        0
    }
}

/// See `spec_signal`.
pub open spec fn stdev_signal_b(w: Seq<Quote>, c: Quote) -> int {
    if stdev_m(w) == 0 {
        0
    } else if band_b(stdev_d_cur(w, c), stdev_t(w), stdev_m(w)) {
        1
    } else {
        0
    }
}

/// See `spec_signal`.
pub open spec fn stdev_signal_d(w: Seq<Quote>, c: Quote) -> int {
    if stdev_m(w) == 0 {
        0
    } else if band_d(stdev_d_cur(w, c), stdev_t(w), stdev_m(w)) {
        1
    } else {
        0
    }
}

/// See `spec_signal`.
pub open spec fn stdev_signal_f(w: Seq<Quote>, c: Quote) -> int {
    if stdev_m(w) == 0 {
        0
    } else if band_f(stdev_d_cur(w, c), stdev_t(w), stdev_m(w)) {
        1
    } else {
        0
    }
}

/// Computes the cross-multiplied ingredients of the
/// standard-deviation bands for a window with at least two prior
/// bars: `d*d*m^3` and the squared-deviation sum `t`.
pub fn stdev_measure(window: &Window) -> (r: (i128, i128))
    requires
        window_wf(window),
        window.window@.len() >= 2,
    ensures
        ({
            let w = window.window@;
            let c = window.current_quote;
            let d = stdev_d_cur(w, c);
            let m = stdev_m(w);
            r.0 == d * d * m * m * m && r.1 == stdev_t(w) && 0 <= r.1
                <= 20_000_000_000_000_000_000_000_000_000_000_000_000int
        }),
{
    let ghost w = window.window@;
    let m: usize = window.window.len() - 1;
    let diffs = diff(&window.window, 1);
    let ghost ds = dseq(w);
    proof {
        assert(ds.len() == diffs@.len() == m);
        assert(forall|k: int| 0 <= k < ds.len() ==> #[trigger] ds[k] == diffs@[k]);
        assert(forall|k: int|
            0 <= k < diffs@.len() ==> -20_000_000_000 <= #[trigger] diffs@[k]
                <= 20_000_000_000) by {
            assert(forall|k: int|
                0 <= k < w.len() ==> -10_000_000_000 <= (#[trigger] w[k]).close
                    <= 10_000_000_000);
        }
    }
    let mut s: i128 = 0;
    let mut i: usize = 0;
    proof {
        assert(ds.take(0) =~= Seq::<int>::empty());
    }
    while i < m
        invariant
            i <= m,
            m == ds.len(),
            m == diffs@.len(),
            m + 1 == w.len() <= crate::schemas::MAX_BARS,
            forall|k: int| 0 <= k < ds.len() ==> #[trigger] ds[k] == diffs@[k],
            forall|k: int|
                0 <= k < diffs@.len() ==> -20_000_000_000 <= #[trigger] diffs@[k]
                    <= 20_000_000_000,
            s == sum_int(ds.take(i as int)),
            -20_000_000_000 * i <= s <= 20_000_000_000 * i,
        decreases m - i,
    {
        proof {
            assert(ds.take(i as int + 1).drop_last() =~= ds.take(i as int));
            assert(ds.take(i as int + 1).last() == ds[i as int]);
        }
        s = s + diffs[i] as i128;
        i = i + 1;
    }
    proof {
        assert(ds.take(m as int) =~= ds);
    }
    let total = s;
    let mc = m as i128;
    let mut t: i128 = 0;
    let mut j: usize = 0;
    proof {
        assert(ds.take(0) =~= Seq::<int>::empty());
    }
    while j < m
        invariant
            j <= m,
            m == ds.len(),
            m == diffs@.len(),
            m + 1 == w.len() <= crate::schemas::MAX_BARS,
            mc == m,
            total == sum_int(ds),
            -20_000_000_000 * (m as int) <= total <= 20_000_000_000 * (m as int),
            forall|k: int| 0 <= k < ds.len() ==> #[trigger] ds[k] == diffs@[k],
            forall|k: int|
                0 <= k < diffs@.len() ==> -20_000_000_000 <= #[trigger] diffs@[k]
                    <= 20_000_000_000,
            t == sqdev_sum(ds.take(j as int), m as int, total as int),
            0 <= t <= 64_000_000_000_000_000_000_000_000_000_000 * (j as int),
        decreases m - j,
    {
        proof {
            assert(ds.take(j as int + 1).drop_last() =~= ds.take(j as int));
            assert(ds.take(j as int + 1).last() == ds[j as int]);
        }
        let dj = diffs[j] as i128;
        proof {
            assert(-4_000_000_000_000_000 <= mc * dj <= 4_000_000_000_000_000)
                by (nonlinear_arith)
                requires
                    0 <= mc <= 200_000,
                    -20_000_000_000 <= dj <= 20_000_000_000,
            ;
        }
        let dev = mc * dj - total;
        proof {
            assert(0 <= dev * dev <= 64_000_000_000_000_000_000_000_000_000_000) by (nonlinear_arith)
                requires
                    -8_000_000_000_000_000 <= dev <= 8_000_000_000_000_000,
            ;
        }
        t = t + dev * dev;
        j = j + 1;
    }
    proof {
        assert(ds.take(m as int) =~= ds);
    }
    let d = window.current_diff();
    let dc = d as i128;
    proof {
        assert(-20_000_000_000 <= dc <= 20_000_000_000);
        assert(0 <= (dc as int) * (dc as int) <= 400_000_000_000_000_000_000) by (nonlinear_arith)
            requires
                -20_000_000_000 <= dc as int <= 20_000_000_000,
        ;
    }
    let dd = dc * dc;
    proof {
        assert(0 <= (dd as int) * (mc as int) <= 80_000_000_000_000_000_000_000_000)
            by (nonlinear_arith)
            requires
                0 <= dd as int <= 400_000_000_000_000_000_000,
                0 <= mc as int <= 200_000,
        ;
    }
    let m3a = dd * mc;
    proof {
        assert(0 <= (m3a as int) * (mc as int) <= 16_000_000_000_000_000_000_000_000_000_000)
            by (nonlinear_arith)
            requires
                0 <= m3a as int <= 80_000_000_000_000_000_000_000_000,
                0 <= mc as int <= 200_000,
        ;
    }
    let m3b = m3a * mc;
    proof {
        assert(0 <= (m3b as int) * (mc as int)
            <= 3_200_000_000_000_000_000_000_000_000_000_000_000) by (nonlinear_arith)
            requires
                0 <= m3b as int <= 16_000_000_000_000_000_000_000_000_000_000,
                0 <= mc as int <= 200_000,
        ;
    }
    let lhs = m3b * mc;
    (lhs, t)
}

/// One decoded indicator invocation within a candidate program.
#[derive(Debug, Clone)]
pub struct Strategy {
    pub chromosome_id: u128,
    /// The full clause text, e.g. `llv:AAPL:2`.
    pub strategy: String,
    /// The indicator code, e.g. `llv`.
    pub code: String,
    /// The code resolved to its closed-set variant.
    pub indicator: Indicator,
    /// The ticker whose history the clause replays.
    pub ticker: String,
    pub param: i32,
    pub target_ticker: String,
    pub generation: i32,
}

/// What parsing one clause yields: its indicator, ticker text, and
/// parameter — or nothing, with `BadClause` for a shape or parameter
/// failure and `UnknownIndicator` for an unrecognised code.
pub open spec fn spec_parse_clause(s: Seq<char>) -> Result<(Indicator, Seq<char>, i32), RunError> {
    let fs = spec_split_fields(s);
    if fs.len() != 3 {
        Err(RunError::BadClause)
    } else if spec_parse_i32(fs[2]) is None {
        Err(RunError::BadClause)
    } else if indicator_of(fs[0]) is None {
        Err(RunError::UnknownIndicator)
    } else {
        Ok((indicator_of(fs[0])->0, fs[1], spec_parse_i32(fs[2])->0))
    }
}

/// The parsed strategy `st` is what clause `s` of candidate `c`
/// parses to.
pub open spec fn strat_matches(st: Strategy, c: Chromosome, s: Seq<char>) -> bool {
    &&& spec_parse_clause(s) is Ok
    &&& st.indicator == spec_parse_clause(s)->Ok_0.0
    &&& st.ticker@ == spec_parse_clause(s)->Ok_0.1
    &&& st.param == spec_parse_clause(s)->Ok_0.2
    &&& st.param >= 0
    &&& st.code@ == spec_split_fields(s)[0]
    &&& st.strategy@ == s
    &&& st.chromosome_id == c.id
    &&& st.target_ticker@ == c.target_ticker@
    &&& st.generation == c.generation
}

/// Parses one clause of a candidate into a `Strategy`, failing
/// exactly on malformed shape, oversized parameter, or unknown code.
pub fn expand_strategy(chromosome: &Chromosome, strategy: String) -> (r: Result<
    Strategy,
    RunError,
>)
    ensures
        match r {
            Ok(st) => strat_matches(st, *chromosome, strategy@),
            Err(e) => spec_parse_clause(strategy@) == Err::<(Indicator, Seq<char>, i32), RunError>(
                e,
            ),
        },
{
    let fields = split_fields(strategy.as_str());
    proof {
        assert(views(fields@).len() == fields@.len());
    }
    if fields.len() != 3 {
        return Err(RunError::BadClause);
    }
    proof {
        assert(views(fields@)[0] == fields@[0]@);
        assert(views(fields@)[1] == fields@[1]@);
        assert(views(fields@)[2] == fields@[2]@);
    }
    let param = match parse_i32(fields[2].as_str()) {
        Some(p) => p,
        None => {
            return Err(RunError::BadClause);
        },
    };
    let indicator = match lookup_indicator(fields[0].as_str()) {
        Some(ind) => ind,
        None => {
            return Err(RunError::UnknownIndicator);
        },
    };
    let code = fields[0].clone();
    let ticker = fields[1].clone();
    Ok(
        Strategy {
            chromosome_id: chromosome.id,
            strategy,
            code,
            indicator,
            ticker,
            param,
            target_ticker: chromosome.target_ticker.clone(),
            generation: chromosome.generation,
        },
    )
}

/// How many windows of `param` prior bars fit over `quotes`.
pub open spec fn win_count(quotes: Seq<Quote>, param: int) -> int {
    if 0 <= param < quotes.len() {
        quotes.len() - param
    } else {
        0
    }
}

/// Replaying one clause over its ticker's bars from window `k` on:
/// each window's indicator outcome is recorded against the window's
/// current-bar timestamp.
pub open spec fn apply_from(
    m: Seq<SignalRecV>,
    ind: Indicator,
    id: u128,
    target: Seq<char>,
    generation: i32,
    name: Seq<char>,
    quotes: Seq<Quote>,
    param: int,
    k: int,
) -> Seq<SignalRecV>
    decreases win_count(quotes, param) - k,
{
    if k < 0 || k >= win_count(quotes, param) {
        m
    } else {
        let frame = quotes.subrange(k, k + param);
        let cur = quotes[k + param];
        let sig = spec_signal(ind, frame, cur, param) as i32;
        let fresh = init_rec(id, target, generation, name, cur.ts, sig);
        apply_from(
            upsert_rec(m, fresh, name, sig),
            ind,
            id,
            target,
            generation,
            name,
            quotes,
            param,
            k + 1,
        )
    }
}

/// Some bar of `qs` carries timestamp `ts`.
pub open spec fn q_has_ts(qs: Seq<Quote>, ts: u64) -> bool {
    exists|j: int| 0 <= j < qs.len() && (#[trigger] qs[j]).ts == ts
}

/// Replays one clause's indicator over every window of its ticker's
/// history, recording each 0/1 outcome in the shared signal map.
pub fn run_windows(
    ind: Indicator,
    strategy: &Strategy,
    trade_signals: &mut SignalMap,
    quotes: &Vec<Quote>,
)
    requires
        quotes_wf(quotes@),
        strategy.param >= 0,
        sm_wf(old(trade_signals).recs()),
    ensures
        final(trade_signals).recs() == apply_from(
            old(trade_signals).recs(),
            ind,
            strategy.chromosome_id,
            strategy.target_ticker@,
            strategy.generation,
            strategy.strategy@,
            quotes@,
            strategy.param as int,
            0,
        ),
        sm_wf(final(trade_signals).recs()),
        forall|i: int|
            0 <= i < final(trade_signals).recs().len() ==> ts_in(
                old(trade_signals).recs(),
                (#[trigger] final(trade_signals).recs()[i]).ts,
            ) || q_has_ts(quotes@, final(trade_signals).recs()[i].ts),
{
    let ghost m0 = trade_signals.recs();
    let ghost id = strategy.chromosome_id;
    let ghost target = strategy.target_ticker@;
    let ghost generation = strategy.generation;
    let ghost name = strategy.strategy@;
    let ghost q = quotes@;
    let ghost param = strategy.param as int;
    let windows = make_window(quotes, strategy.param as usize);
    let n = windows.len();
    proof {
        assert(n == win_count(q, param));
    }
    let mut i: usize = 0;
    while i < n
        invariant
            i <= n,
            n == windows@.len(),
            n == win_count(q, param),
            q == quotes@,
            quotes_wf(q),
            param == strategy.param as int,
            strategy.param >= 0,
            id == strategy.chromosome_id,
            target == strategy.target_ticker@,
            generation == strategy.generation,
            name == strategy.strategy@,
            forall|k: int|
                0 <= k < windows@.len() ==> {
                    &&& (#[trigger] windows@[k]).window@ == q.subrange(k, k + param)
                    &&& windows@[k].current_quote == q[k + param]
                },
            sm_wf(trade_signals.recs()),
            apply_from(m0, ind, id, target, generation, name, q, param, 0) == apply_from(
                trade_signals.recs(),
                ind,
                id,
                target,
                generation,
                name,
                q,
                param,
                i as int,
            ),
            forall|r: int|
                0 <= r < trade_signals.recs().len() ==> ts_in(
                    m0,
                    (#[trigger] trade_signals.recs()[r]).ts,
                ) || q_has_ts(q, trade_signals.recs()[r].ts),
        decreases n - i,
    {
        let window = &windows[i];
        proof {
            assert(window.window@ == q.subrange(i as int, i as int + param));
            assert(quote_wf(window.current_quote));
            assert(forall|k: int|
                0 <= k < window.window@.len() ==> quote_wf(#[trigger] window.window@[k])) by {
                assert(forall|k: int|
                    0 <= k < window.window@.len() ==> #[trigger] window.window@[k] == q[i as int
                        + k]);
            }
            assert(window_wf(window));
        }
        let sig: i32 = match ind {
            Indicator::Hhv => highest_high_value::highest_high_value(window),
            Indicator::Llv => lowest_low_value::lowest_low_value(window),
            Indicator::ConUpDays => con_up_days::con_up_days(window, strategy.param),
            Indicator::ConDownDays => con_down_days::con_down_days(window, strategy.param),
            Indicator::GapUp => gap_up_days::gap_up_days(window, strategy.param),
            Indicator::GapDown => gap_down_days::gap_down_days(window, strategy.param),
            Indicator::AboveMa => above_ma::above_ma(window),
            Indicator::BelowMa => below_ma::below_ma(window),
            Indicator::StdevA => stddev_a::generator(window),
            Indicator::StdevB => stddev_b::generator(window),
            Indicator::StdevD => stddev_d::generator(window),
            Indicator::StdevF => stddev_f::generator(window),
        };
        proof {
            assert(sig == spec_signal(ind, window.window@, window.current_quote, param));
            assert(sig == 0 || sig == 1) by {
                assert(spec_signal(ind, window.window@, window.current_quote, param) == 0
                    || spec_signal(ind, window.window@, window.current_quote, param) == 1);
            }
        }
        let ghost m_before = trade_signals.recs();
        trade_signals.upsert(strategy, window.current_quote.ts, sig);
        proof {
            let cur = q[i as int + param];
            assert(window.current_quote == cur);
            assert(q_has_ts(q, cur.ts));
            assert(apply_from(m_before, ind, id, target, generation, name, q, param, i as int)
                == apply_from(trade_signals.recs(), ind, id, target, generation, name, q, param, i as int + 1));
            assert(forall|r: int|
                0 <= r < trade_signals.recs().len() ==> ts_in(
                    m0,
                    (#[trigger] trade_signals.recs()[r]).ts,
                ) || q_has_ts(q, trade_signals.recs()[r].ts)) by {
                assert(forall|t: u64| ts_in(m_before, t) ==> ts_in(m0, t) || q_has_ts(q, t));
            }
        }
        i = i + 1;
    }
}

/// The first parse error among a program's clauses, if any.
pub open spec fn spec_expand_err(clauses: Seq<Seq<char>>) -> Option<RunError>
    decreases clauses.len(),
{
    if clauses.len() == 0 {
        None
    } else if spec_parse_clause(clauses[0]) is Err {
        Some(spec_parse_clause(clauses[0])->Err_0)
    } else {
        spec_expand_err(clauses.drop_first())
    }
}

/// Splits a candidate's program on `::` and parses every clause,
/// returning the first failure if one clause is malformed.
pub fn expand_strategies(chromosome: &Chromosome) -> (r: Result<Vec<Strategy>, RunError>)
    ensures
        match r {
            Ok(v) => {
                &&& spec_expand_err(spec_split_clauses(chromosome.chromosome@)) is None
                &&& v@.len() == spec_split_clauses(chromosome.chromosome@).len()
                &&& forall|i: int|
                    0 <= i < v@.len() ==> strat_matches(
                        #[trigger] v@[i],
                        *chromosome,
                        spec_split_clauses(chromosome.chromosome@)[i],
                    )
            },
            Err(e) => spec_expand_err(spec_split_clauses(chromosome.chromosome@)) == Some(e),
        },
{
    let clauses = split_clauses(chromosome.chromosome.as_str());
    let ghost cl = spec_split_clauses(chromosome.chromosome@);
    proof {
        assert(views(clauses@).len() == clauses@.len());
    }
    let mut out: Vec<Strategy> = Vec::new();
    let mut i: usize = 0;
    proof {
        assert(cl.skip(0) =~= cl);
    }
    while i < clauses.len()
        invariant
            i <= clauses.len(),
            cl == spec_split_clauses(chromosome.chromosome@),
            cl == views(clauses@),
            cl.len() == clauses@.len(),
            out@.len() == i,
            forall|k: int|
                0 <= k < i ==> strat_matches(#[trigger] out@[k], *chromosome, cl[k]),
            forall|k: int| 0 <= k < i ==> spec_parse_clause(cl[k]) is Ok,
            spec_expand_err(cl) == spec_expand_err(cl.skip(i as int)),
        decreases clauses.len() - i,
    {
        let ghost rest = cl.skip(i as int);
        proof {
            assert(rest[0] == cl[i as int]);
            assert(rest.drop_first() =~= cl.skip(i as int + 1));
            assert(views(clauses@)[i as int] == clauses@[i as int]@);
        }
        let clause = clauses[i].clone();
        match expand_strategy(chromosome, clause) {
            Ok(st) => {
                out.push(st);
            },
            Err(e) => {
                proof {
                    assert(spec_expand_err(rest) == Some(e));
                }
                return Err(e);
            },
        }
        i = i + 1;
    }
    proof {
        assert(cl.skip(clauses@.len() as int).len() == 0);
    }
    Ok(out)
}

} // verus!
