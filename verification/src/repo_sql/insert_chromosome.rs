//! SQL storing a candidate's identity and decoded program.

use vstd::prelude::*;

verus! {

/// The statement that stores one candidate; its parameters are, in
/// order: id, ticker, chromosome, dna, generation, chromosome_length.
pub fn sql() -> (r: String)
    ensures
        r@ == "INSERT INTO trade_chromosomes\n\t\t(id, ticker, chromosome, dna, generation, chromosome_length)\n\t VALUES ($1, $2, $3, $4, $5, $6);"@,
{
    "INSERT INTO trade_chromosomes\n\t\t(id, ticker, chromosome, dna, generation, chromosome_length)\n\t VALUES ($1, $2, $3, $4, $5, $6);".to_owned()
}

} // verus!
