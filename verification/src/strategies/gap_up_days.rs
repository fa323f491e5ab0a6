//! Opens gapping above the previous close.

use vstd::prelude::*;

use crate::schemas::Quote;
use crate::strategies::Strategy;
use crate::trade_signal::SignalMap;

use crate::strategies::count_gap_up;
use crate::strategies::spec_signal;
use crate::strategies::Indicator;
use crate::window::window_wf;
use crate::window::Window;

verus! {

/// Signal 1 when the number of opens above the previous close across the window plus the
/// current bar equals the clause parameter exactly; a window with no
/// prior bars triggers nothing.
pub fn gap_up_days(window: &Window, param: i32) -> (sig: i32)
    requires
        window_wf(window),
    ensures
        sig == spec_signal(
            Indicator::GapUp,
            window.window@,
            window.current_quote,
            param as int,
        ),
{
    if window.window.len() == 0 {
        return 0;
    }
    let quotes = window.flatten();
    let ghost q = quotes@;
    proof {
        assert(q.len() == window.window@.len() + 1 <= crate::schemas::MAX_BARS + 1);
    }
    let n = quotes.len();
    let mut cnt: i32 = 0;
    let mut i: usize = 1;
    proof {
        assert(q.take(1).len() == 1);
    }
    while i < n
        invariant
            1 <= i <= n,
            n == q.len() <= crate::schemas::MAX_BARS + 1,
            q == quotes@,
            cnt == count_gap_up(q.take(i as int)),
            0 <= cnt <= i,
        decreases n - i,
    {
        proof {
            assert(q.take(i as int + 1).drop_last() =~= q.take(i as int));
            assert(q.take(i as int + 1).last() == q[i as int]);
            assert(q.take(i as int + 1)[i as int - 1] == q[i as int - 1]);
            assert(0 <= count_gap_up(q.take(i as int)) <= i) by {
                lemma_count_bound(q.take(i as int));
            }
        }
        if quotes[i].open > quotes[i - 1].close {
            cnt = cnt + 1;
        }
        i = i + 1;
    }
    proof {
        assert(q.take(n as int) =~= q);
        assert(q =~= window.window@.push(window.current_quote));
    }
    if cnt == param {
        1
    } else {
        0
    }
}

proof fn lemma_count_bound(q: Seq<crate::schemas::Quote>)
    ensures
        0 <= count_gap_up(q) <= q.len(),
    decreases q.len(),
{
    if q.len() > 1 {
        lemma_count_bound(q.drop_last());
    }
}


/// Replays this indicator over every window of the clause's ticker
/// history, recording each outcome in the shared signal map.
pub fn call(strategy: &Strategy, trade_signals: &mut SignalMap, quotes: &Vec<Quote>)
    requires
        crate::schemas::quotes_wf(quotes@),
        strategy.param >= 0,
        crate::trade_signal::sm_wf(old(trade_signals).recs()),
    ensures
        final(trade_signals).recs() == crate::strategies::apply_from(
            old(trade_signals).recs(),
            Indicator::GapUp,
            strategy.chromosome_id,
            strategy.target_ticker@,
            strategy.generation,
            strategy.strategy@,
            quotes@,
            strategy.param as int,
            0,
        ),
        crate::trade_signal::sm_wf(final(trade_signals).recs()),
        forall|i: int|
            0 <= i < final(trade_signals).recs().len() ==> crate::trade_signal::ts_in(
                old(trade_signals).recs(),
                (#[trigger] final(trade_signals).recs()[i]).ts,
            ) || crate::strategies::q_has_ts(quotes@, final(trade_signals).recs()[i].ts),
{
    crate::strategies::run_windows(Indicator::GapUp, strategy, trade_signals, quotes)
}

} // verus!
