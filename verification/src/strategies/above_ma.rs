//! Close against the arithmetic mean of the window's closes:
//! compared exactly as `close * n` against the sum of the `n` closes.

use vstd::prelude::*;

use crate::schemas::Quote;
use crate::strategies::Strategy;
use crate::trade_signal::SignalMap;

use crate::strategies::spec_signal;
use crate::strategies::sum_close;
use crate::strategies::Indicator;
use crate::window::window_wf;
use crate::window::Window;

verus! {

/// Signal 1 when the current close lies above the mean of the
/// prior closes; a window with no prior bars triggers nothing.
pub fn above_ma(window: &Window) -> (sig: i32)
    requires
        window_wf(window),
    ensures
        forall|p: int| sig == #[trigger] spec_signal(
            Indicator::AboveMa,
            window.window@,
            window.current_quote,
            p,
        ),
{
    let n = window.window.len();
    if n == 0 {
        return 0;
    }
    let ghost w = window.window@;
    let mut sum: i128 = 0;
    let mut i: usize = 0;
    proof {
        assert(w.take(0) =~= Seq::<crate::schemas::Quote>::empty());
    }
    while i < n
        invariant
            i <= n,
            n == w.len() <= crate::schemas::MAX_BARS,
            w == window.window@,
            forall|k: int|
                0 <= k < w.len() ==> -10_000_000_000 <= (#[trigger] w[k]).close
                    <= 10_000_000_000,
            sum == sum_close(w.take(i as int)),
            -10_000_000_000 * (i as int) <= sum <= 10_000_000_000 * (i as int),
        decreases n - i,
    {
        proof {
            assert(w.take(i as int + 1).drop_last() =~= w.take(i as int));
            assert(w.take(i as int + 1).last() == w[i as int]);
        }
        sum = sum + window.window[i].close as i128;
        i = i + 1;
    }
    proof {
        assert(w.take(n as int) =~= w);
    }
    proof {
        assert(-2_000_000_000_000_000 <= (window.current_quote.close as int) * (n as int)
            <= 2_000_000_000_000_000) by (nonlinear_arith)
            requires
                -10_000_000_000 <= window.current_quote.close as int <= 10_000_000_000,
                0 <= n as int <= 200_000,
        ;
    }
    let lhs = (window.current_quote.close as i128) * (n as i128);
    if lhs > sum {
        1
    } else {
        0
    }
}


/// Replays this indicator over every window of the clause's ticker
/// history, recording each outcome in the shared signal map.
pub fn call(strategy: &Strategy, trade_signals: &mut SignalMap, quotes: &Vec<Quote>)
    requires
        crate::schemas::quotes_wf(quotes@),
        strategy.param >= 0,
        crate::trade_signal::sm_wf(old(trade_signals).recs()),
    ensures
        final(trade_signals).recs() == crate::strategies::apply_from(
            old(trade_signals).recs(),
            Indicator::AboveMa,
            strategy.chromosome_id,
            strategy.target_ticker@,
            strategy.generation,
            strategy.strategy@,
            quotes@,
            strategy.param as int,
            0,
        ),
        crate::trade_signal::sm_wf(final(trade_signals).recs()),
        forall|i: int|
            0 <= i < final(trade_signals).recs().len() ==> crate::trade_signal::ts_in(
                old(trade_signals).recs(),
                (#[trigger] final(trade_signals).recs()[i]).ts,
            ) || crate::strategies::q_has_ts(quotes@, final(trade_signals).recs()[i].ts),
{
    crate::strategies::run_windows(Indicator::AboveMa, strategy, trade_signals, quotes)
}

} // verus!
