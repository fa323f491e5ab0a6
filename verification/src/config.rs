//! Run parameters and the shipped grammar tables.

use vstd::prelude::*;

verus! {

/// How many of the fittest survivors seed the next mating pool.
pub const FITTEST: usize = 500;

/// How many candidates each generation holds.
pub const POPULATION_SIZE: usize = 10000;

/// Codons per candidate sequence.
pub const DNA_LEN: usize = 12;

/// A survivor must have strictly more trades than this to be ranked.
pub const MIN_TRADES: i32 = 100;

/// Per-codon mutation probability, as the chance `MUTATE_NUM` in
/// `MUTATE_DEN` (one in five, i.e. 0.20).
pub const MUTATE_NUM: u32 = 1;

/// See `MUTATE_NUM`.
pub const MUTATE_DEN: u32 = 5;

/// The number of entries in the strategy-template table.
pub fn strategies_length() -> (n: i32)
    ensures
        n == 10,
{
    10
}

/// The number of entries in the statement-composition table: a single
/// clause, or a clause chained with a further statement.
pub fn statements_length() -> (n: i32)
    ensures
        n == 2,
{
    2
}

/// The shipped ticker universe.
pub fn default_tickers() -> (r: Vec<String>)
    ensures
        r@.len() == 13,
{
    let mut v: Vec<String> = Vec::new();
    v.push("coinbaseUSD".to_owned());
    v.push("zaifJPY".to_owned());
    v.push("bitstampUSD".to_owned());
    v.push("coincheckJPY".to_owned());
    v.push("btcnCNY".to_owned());
    v.push("bitflyerJPY".to_owned());
    v.push("btceUSD".to_owned());
    v.push("btctradeCNY".to_owned());
    v.push("coinbaseEUR".to_owned());
    v.push("bitfinexUSD".to_owned());
    v.push("fiscoJPY".to_owned());
    v.push("krakenEUR".to_owned());
    v.push("krakenUSD".to_owned());
    v
}

/// The shipped strategy-template table: each entry is the indicator
/// code of a clause shape `code:<ticker>:<param>`.
pub fn default_strategies() -> (r: Vec<String>)
    ensures
        r@.len() == 10,
{
    let mut v: Vec<String> = Vec::new();
    v.push("hhv".to_owned());
    v.push("llv".to_owned());
    v.push("conupdays".to_owned());
    v.push("condowndays".to_owned());
    v.push("gapup".to_owned());
    v.push("gapdown".to_owned());
    v.push("stdeva".to_owned());
    v.push("stdevb".to_owned());
    v.push("stdevd".to_owned());
    v.push("stdevf".to_owned());
    v
}

} // verus!
