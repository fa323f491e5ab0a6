//! Move of at least two standard deviations up.

use vstd::prelude::*;

use crate::schemas::Quote;
use crate::strategies::Strategy;
use crate::trade_signal::SignalMap;

use crate::strategies::stdev_measure;
use crate::strategies::spec_signal;
use crate::strategies::Indicator;
use crate::window::window_wf;
use crate::window::Window;

verus! {

/// Signal 1 when the close-to-close move `d` satisfies `d >= 2σ`.  The comparison is exact: `d` against the population
/// standard deviation of the window's close-to-close differences,
/// cross-multiplied to avoid the square root.
pub fn generator(window: &Window) -> (sig: i32)
    requires
        window_wf(window),
    ensures
        forall|p: int| sig == #[trigger] spec_signal(
            Indicator::StdevA,
            window.window@,
            window.current_quote,
            p,
        ),
{
    if window.window.len() < 2 {
        return 0;
    }
    let (lhs, t) = stdev_measure(window);
    let d = window.current_diff();
    if d >= 0 && lhs >= 4 * t {
        1
    } else {
        0
    }
}


/// Replays this indicator over every window of the clause's ticker
/// history, recording each outcome in the shared signal map.
pub fn call(strategy: &Strategy, trade_signals: &mut SignalMap, quotes: &Vec<Quote>)
    requires
        crate::schemas::quotes_wf(quotes@),
        strategy.param >= 0,
        crate::trade_signal::sm_wf(old(trade_signals).recs()),
    ensures
        final(trade_signals).recs() == crate::strategies::apply_from(
            old(trade_signals).recs(),
            Indicator::StdevA,
            strategy.chromosome_id,
            strategy.target_ticker@,
            strategy.generation,
            strategy.strategy@,
            quotes@,
            strategy.param as int,
            0,
        ),
        crate::trade_signal::sm_wf(final(trade_signals).recs()),
        forall|i: int|
            0 <= i < final(trade_signals).recs().len() ==> crate::trade_signal::ts_in(
                old(trade_signals).recs(),
                (#[trigger] final(trade_signals).recs()[i]).ts,
            ) || crate::strategies::q_has_ts(quotes@, final(trade_signals).recs()[i].ts),
{
    crate::strategies::run_windows(Indicator::StdevA, strategy, trade_signals, quotes)
}

} // verus!
