//! SQL computing forward returns over the hourly store.

use vstd::prelude::*;

verus! {

/// The statement that computes the target ticker's one-bar forward
/// returns over the hourly store.
pub fn sql() -> (r: String)
    ensures
        r@ == " SELECT * FROM\n    (\n    SELECT\n      EXTRACT(epoch FROM ts) AS ts\n    , (LEAD(close::real, 1) OVER (ORDER BY ts) - close::real) / close::real AS ret\n    FROM btcc.hourly\n    WHERE ticker = $1\n    AND ts >= '2016-01-01'\n    ) a\n    WHERE ret IS NOT NULL\n    ORDER BY ts;\n  "@,
{
    " SELECT * FROM\n    (\n    SELECT\n      EXTRACT(epoch FROM ts) AS ts\n    , (LEAD(close::real, 1) OVER (ORDER BY ts) - close::real) / close::real AS ret\n    FROM btcc.hourly\n    WHERE ticker = $1\n    AND ts >= '2016-01-01'\n    ) a\n    WHERE ret IS NOT NULL\n    ORDER BY ts;\n  ".to_owned()
}

} // verus!
