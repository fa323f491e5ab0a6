//! Grammatical-evolution search for rule-based trading programs.
//!
//! A candidate program is a fixed-length sequence of small integers
//! ("codons") decoded against grammar tables into a `::`-joined list of
//! indicator clauses.  Each candidate is replayed bar-by-bar over
//! historical price windows, scored, ranked, and bred into the next
//! generation.
//!
//! Prices are fixed-point integers (hundredths of a currency unit) and
//! forward returns are fixed-point integers (millionths), so every
//! indicator decision and every fitness statistic is exact integer or
//! rational arithmetic.

pub mod calc;
pub mod chromosome;
pub mod config;
pub mod darwin;
pub mod dna;
pub mod decimal;
pub mod draws;
pub mod errors;
pub mod harness;
pub mod ranker;
pub mod repo_sql;
pub mod sql;
pub mod strategies;
pub mod ratio;
pub mod schemas;
pub mod window;
pub mod text;
pub mod trade_signal;
pub mod vger;
pub mod writer;
