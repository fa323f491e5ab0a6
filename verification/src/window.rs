//! Price windows: the fixed run of prior bars plus the current bar
//! that every indicator reads.

use vstd::prelude::*;

use crate::schemas::quote_wf;
use crate::schemas::quotes_wf;
use crate::schemas::Quote;

verus! {

/// A window of `Quote`s of length n where `t^n < t^0`, plus the
/// current quote at `t^0`.
#[derive(Debug, Clone)]
pub struct Window {
    /// The prior bars, oldest first.
    pub window: Vec<Quote>,
    /// The bar at `t^0`.
    pub current_quote: Quote,
}

/// The window and its current bar are within the machine bounds.
pub open spec fn window_wf(w: &Window) -> bool {
    &&& quotes_wf(w.window@)
    &&& quote_wf(w.current_quote)
}

impl Window {
    /// The difference between the current close and the last prior
    /// close.
    pub fn current_diff(&self) -> (d: i64)
        requires
            self.window@.len() >= 1,
            window_wf(self),
        ensures
            d == self.current_quote.close - self.window@.last().close,
    {
        let end_idx = self.window.len() - 1;
        self.current_quote.close - self.window[end_idx].close
    }

    /// The prior bars and the current bar as a single sequence.
    pub fn flatten(&self) -> (v: Vec<Quote>)
        ensures
            v@ == self.window@.push(self.current_quote),
    {
        let mut w = self.window.clone();
        proof {
            assert(w@ =~= self.window@);
        }
        w.push(self.current_quote);
        w
    }
}

/// The prior bars and the current bar of `window` as one sequence.
pub fn flatten_window(window: &Window) -> (v: Vec<Quote>)
    ensures
        v@ == window.window@.push(window.current_quote),
{
    window.flatten()
}

/// The windows of `length` prior bars that slide over `quotes`: one
/// per bar from index `length` on, each carrying that bar as its
/// current quote.
pub fn make_window(quotes: &Vec<Quote>, length: usize) -> (windows: Vec<Window>)
    ensures
        windows@.len() == if length < quotes@.len() {
            quotes@.len() - length
        } else {
            0
        },
        forall|k: int|
            0 <= k < windows@.len() ==> {
                &&& (#[trigger] windows@[k]).window@ == quotes@.subrange(k, k + length)
                &&& windows@[k].current_quote == quotes@[k + length]
            },
{
    let mut windows: Vec<Window> = Vec::new();
    if length >= quotes.len() {
        return windows;
    }
    let mut n: usize = length;
    while n < quotes.len()
        invariant
            length <= n <= quotes@.len(),
            windows@.len() == n - length,
            forall|k: int|
                0 <= k < windows@.len() ==> {
                    &&& (#[trigger] windows@[k]).window@ == quotes@.subrange(k, k + length)
                    &&& windows@[k].current_quote == quotes@[k + length]
                },
        decreases quotes@.len() - n,
    {
        let start_index = n - length;
        let mut frame: Vec<Quote> = Vec::new();
        let mut j: usize = start_index;
        while j < n
            invariant
                start_index <= j <= n <= quotes@.len(),
                frame@.len() == j - start_index,
                forall|k: int| 0 <= k < frame@.len() ==> #[trigger] frame@[k] == quotes@[
                    start_index + k
                ],
            decreases n - j,
        {
            frame.push(quotes[j]);
            j = j + 1;
        }
        proof {
            assert(frame@ =~= quotes@.subrange(start_index as int, start_index + length));
        }
        let new_window = Window { window: frame, current_quote: quotes[n] };
        windows.push(new_window);
        n = n + 1;
    }
    windows
}

/// Close-to-close differences at the given lag: entry `k` is
/// `close[k + lag] - close[k]`.
pub fn diff(quotes: &Vec<Quote>, lag: usize) -> (d: Vec<i64>)
    requires
        quotes_wf(quotes@),
    ensures
        d@.len() == if lag < quotes@.len() {
            quotes@.len() - lag
        } else {
            0
        },
        forall|k: int|
            0 <= k < d@.len() ==> #[trigger] d@[k] == quotes@[k + lag].close - quotes@[k].close,
{
    let mut diffs: Vec<i64> = Vec::new();
    if lag >= quotes.len() {
        return diffs;
    }
    let mut n: usize = lag;
    while n < quotes.len()
        invariant
            lag <= n <= quotes@.len(),
            quotes_wf(quotes@),
            diffs@.len() == n - lag,
            forall|k: int|
                0 <= k < diffs@.len() ==> #[trigger] diffs@[k] == quotes@[k + lag].close
                    - quotes@[k].close,
        decreases quotes@.len() - n,
    {
        let lag_n = n - lag;
        let delta = quotes[n].close - quotes[lag_n].close;
        diffs.push(delta);
        n = n + 1;
    }
    diffs
}

} // verus!
