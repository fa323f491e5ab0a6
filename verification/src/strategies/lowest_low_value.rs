//! Breakdown below the window's lowest low.

use vstd::prelude::*;

use crate::schemas::Quote;
use crate::strategies::Strategy;
use crate::trade_signal::SignalMap;

use crate::strategies::min_low;
use crate::strategies::spec_signal;
use crate::strategies::Indicator;
use crate::window::window_wf;
use crate::window::Window;

verus! {

/// Signal 1 when the current close falls below the lowest low of the
/// prior bars; a window with no prior bars triggers nothing.
pub fn lowest_low_value(window: &Window) -> (sig: i32)
    requires
        window_wf(window),
    ensures
        forall|p: int| sig == #[trigger] spec_signal(
            Indicator::Llv,
            window.window@,
            window.current_quote,
            p,
        ),
{
    let n = window.window.len();
    if n == 0 {
        return 0;
    }
    let ghost w = window.window@;
    let mut lv: i64 = window.window[0].low;
    let mut i: usize = 1;
    proof {
        assert(w.take(1).len() == 1);
        assert(w.take(1)[0] == w[0]);
    }
    while i < n
        invariant
            1 <= i <= n,
            n == w.len(),
            w == window.window@,
            lv == min_low(w.take(i as int)),
        decreases n - i,
    {
        proof {
            assert(w.take(i as int + 1).drop_last() =~= w.take(i as int));
            assert(w.take(i as int + 1).last() == w[i as int]);
        }
        if window.window[i].low < lv {
            lv = window.window[i].low;
        }
        i = i + 1;
    }
    proof {
        assert(w.take(n as int) =~= w);
    }
    if window.current_quote.close < lv {
        1
    } else {
        0
    }
}


/// Replays this indicator over every window of the clause's ticker
/// history, recording each outcome in the shared signal map.
pub fn call(strategy: &Strategy, trade_signals: &mut SignalMap, quotes: &Vec<Quote>)
    requires
        crate::schemas::quotes_wf(quotes@),
        strategy.param >= 0,
        crate::trade_signal::sm_wf(old(trade_signals).recs()),
    ensures
        final(trade_signals).recs() == crate::strategies::apply_from(
            old(trade_signals).recs(),
            Indicator::Llv,
            strategy.chromosome_id,
            strategy.target_ticker@,
            strategy.generation,
            strategy.strategy@,
            quotes@,
            strategy.param as int,
            0,
        ),
        crate::trade_signal::sm_wf(final(trade_signals).recs()),
        forall|i: int|
            0 <= i < final(trade_signals).recs().len() ==> crate::trade_signal::ts_in(
                old(trade_signals).recs(),
                (#[trigger] final(trade_signals).recs()[i]).ts,
            ) || crate::strategies::q_has_ts(quotes@, final(trade_signals).recs()[i].ts),
{
    crate::strategies::run_windows(Indicator::Llv, strategy, trade_signals, quotes)
}

} // verus!
