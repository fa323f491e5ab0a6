//! The SQL text the database adapter runs against the shared
//! quote store: kept with the library so the statements the run
//! depends on are fixed in one place.

use vstd::prelude::*;

verus! {

/// The statement that loads a ticker's bars, oldest first.
pub fn get_quotes_by_symbol() -> (r: String)
    ensures
        r@ == "SELECT\n       ticker,\n       EXTRACT(epoch FROM ts),\n       open::REAL,\n       high::REAL,\n       low::REAL,\n       close::REAL,\n       volume::REAL\n    FROM av_quotes \n    WHERE ticker = $1 \n    AND ts >= '2000-01-01'\n    ORDER BY ts;"@,
{
    "SELECT\n       ticker,\n       EXTRACT(epoch FROM ts),\n       open::REAL,\n       high::REAL,\n       low::REAL,\n       close::REAL,\n       volume::REAL\n    FROM av_quotes \n    WHERE ticker = $1 \n    AND ts >= '2000-01-01'\n    ORDER BY ts;".to_owned()
}

/// The statement that computes the target ticker's one-bar forward
/// returns.
pub fn get_returns() -> (r: String)
    ensures
        r@ == " SELECT * FROM\n    (\n    SELECT\n      EXTRACT(epoch FROM ts) AS ts\n    , (LEAD(close::real, 1) OVER (ORDER BY ts) - close::real) / close::real AS ret\n    FROM av_quotes\n    WHERE ticker = $1\n    AND ts >= '2000-01-01'\n    ) a\n    WHERE ret IS NOT NULL\n    ORDER BY ts;\n  "@,
{
    " SELECT * FROM\n    (\n    SELECT\n      EXTRACT(epoch FROM ts) AS ts\n    , (LEAD(close::real, 1) OVER (ORDER BY ts) - close::real) / close::real AS ret\n    FROM av_quotes\n    WHERE ticker = $1\n    AND ts >= '2000-01-01'\n    ) a\n    WHERE ret IS NOT NULL\n    ORDER BY ts;\n  ".to_owned()
}

/// The statement that lists the stored ticker universe.
pub fn get_tickers() -> (r: String)
    ensures
        r@ == "SELECT ticker\n    FROM av_quotes\n    GROUP BY ticker;"@,
{
    "SELECT ticker\n    FROM av_quotes\n    GROUP BY ticker;".to_owned()
}

/// The statement that stores one candidate's identity and decoded
/// program.
pub fn insert_chromosome() -> (r: String)
    ensures
        r@ == "INSERT INTO trade_chromosomes\n\t\t(id, ticker, chromosome, dna, generation, chromosome_length)\n\t VALUES ($1, $2, $3, $4, $5, $6);"@,
{
    "INSERT INTO trade_chromosomes\n\t\t(id, ticker, chromosome, dna, generation, chromosome_length)\n\t VALUES ($1, $2, $3, $4, $5, $6);".to_owned()
}

/// The statement that resets the per-bar signal table.
pub fn init_trade_signals() -> (r: String)
    ensures
        r@ == "   DROP TABLE IF EXISTS trade_signals;\n            CREATE TABLE trade_signals (\n                chromosome_id uuid\n            ,   ts integer not null\n            ,   strategies text array\n            ,   signals integer array\n            ,   target_ticker text\n            ,   hard_signal integer\n            ,   generation integer\n            ,   ret numeric\n            ,   pnl numeric\n            );\n            CREATE INDEX ON trade_signals (chromosome_id, ts);"@,
{
    "   DROP TABLE IF EXISTS trade_signals;\n            CREATE TABLE trade_signals (\n                chromosome_id uuid\n            ,   ts integer not null\n            ,   strategies text array\n            ,   signals integer array\n            ,   target_ticker text\n            ,   hard_signal integer\n            ,   generation integer\n            ,   ret numeric\n            ,   pnl numeric\n            );\n            CREATE INDEX ON trade_signals (chromosome_id, ts);".to_owned()
}

/// The statement that resets the candidate table.
pub fn init_chromosomes() -> (r: String)
    ensures
        r@ == "   DROP TABLE IF EXISTS trade_chromosomes;\n            CREATE TABLE trade_chromosomes (\n            id uuid,\n            target_ticker text, \n            chromosome text,\n            dna integer array,\n            generation int,\n            chromosome_length int,\n            kelly numeric,\n            cum_pnl numeric,\n            variance numeric,\n            mean_return numeric,\n            w_kelly numeric,\n            num_of_trades integer,\n            winning_trades integer,\n            losing_trades integer,\n            percentage_winners numeric,\n            rank integer\n            );"@,
{
    "   DROP TABLE IF EXISTS trade_chromosomes;\n            CREATE TABLE trade_chromosomes (\n            id uuid,\n            target_ticker text, \n            chromosome text,\n            dna integer array,\n            generation int,\n            chromosome_length int,\n            kelly numeric,\n            cum_pnl numeric,\n            variance numeric,\n            mean_return numeric,\n            w_kelly numeric,\n            num_of_trades integer,\n            winning_trades integer,\n            losing_trades integer,\n            percentage_winners numeric,\n            rank integer\n            );".to_owned()
}

/// The statement that bulk-loads the candidate table from its file
/// sink.
pub fn copy_chromosomes() -> (r: String)
    ensures
        r@ == "COPY trade_chromosomes FROM '/tmp/chromosomes.txt';"@,
{
    "COPY trade_chromosomes FROM '/tmp/chromosomes.txt';".to_owned()
}

/// The statement that bulk-loads the per-bar signal table from one
/// candidate's file sink.
pub fn copy_trade_signals(filename: &str) -> (r: String)
    ensures
        r@ == "COPY trade_signals FROM '"@ + filename@ + "';"@,
{
    let mut s = String::new();
    proof {
        reveal_strlit("COPY trade_signals FROM '");
        reveal_strlit("';");
    }
    s.append("COPY trade_signals FROM '");
    s.append(filename);
    s.append("';");
    proof {
        assert(s@ =~= "COPY trade_signals FROM '"@ + filename@ + "';"@);
    }
    s
}

} // verus!
