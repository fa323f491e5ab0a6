//! SQL loading a ticker's hourly bars.

use vstd::prelude::*;

verus! {

/// The statement that loads a ticker's hourly bars, oldest first.
pub fn sql() -> (r: String)
    ensures
        r@ == "SELECT\n       ticker,\n       EXTRACT(epoch FROM ts),\n       open::REAL,\n       high::REAL,\n       low::REAL,\n       close::REAL,\n       volume::REAL\n    FROM btcc.hourly \n    WHERE ticker = $1 \n    AND ts >= '2016-01-01'\n    ORDER BY ts;"@,
{
    "SELECT\n       ticker,\n       EXTRACT(epoch FROM ts),\n       open::REAL,\n       high::REAL,\n       low::REAL,\n       close::REAL,\n       volume::REAL\n    FROM btcc.hourly \n    WHERE ticker = $1 \n    AND ts >= '2016-01-01'\n    ORDER BY ts;".to_owned()
}

} // verus!
