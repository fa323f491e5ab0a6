//! Random codon sequences for the first generation.

use vstd::prelude::*;

use crate::chromosome::dna_wf;
use crate::draws::random_in;

verus! {

/// Draws one codon sequence of length `len`, each codon uniform in
/// [1, 255].
pub fn generate_dna(len: i32) -> (dna: Vec<i32>)
    requires
        len >= 0,
    ensures
        dna@.len() == len,
        dna_wf(dna@),
        forall|i: int| 0 <= i < dna@.len() ==> 1 <= #[trigger] dna@[i] <= 255,
{
    let mut dna: Vec<i32> = Vec::new();
    let mut i: i32 = 0;
    while i < len
        invariant
            0 <= i <= len,
            dna@.len() == i,
            forall|k: int| 0 <= k < dna@.len() ==> 1 <= #[trigger] dna@[k] <= 255,
        decreases len - i,
    {
        let base: i32 = random_in(1, 255);
        dna.push(base);
        i = i + 1;
    }
    dna
}

/// Draws `qty` codon sequences of length `len`, each from an
/// independent run of draws.
pub fn generate_dnas(len: i32, qty: i32) -> (dnas: Vec<Vec<i32>>)
    requires
        len >= 0,
        qty >= 0,
    ensures
        dnas@.len() == qty,
        forall|i: int|
            0 <= i < dnas@.len() ==> {
                &&& (#[trigger] dnas@[i])@.len() == len
                &&& dna_wf(dnas@[i]@)
                &&& forall|k: int| 0 <= k < dnas@[i]@.len() ==> 1 <= #[trigger] dnas@[i]@[k] <= 255
            },
{
    let mut dnas: Vec<Vec<i32>> = Vec::new();
    let mut i: i32 = 0;
    while i < qty
        invariant
            0 <= i <= qty,
            len >= 0,
            dnas@.len() == i,
            forall|k: int|
                0 <= k < dnas@.len() ==> {
                    &&& (#[trigger] dnas@[k])@.len() == len
                    &&& dna_wf(dnas@[k]@)
                    &&& forall|j: int| 0 <= j < dnas@[k]@.len() ==> 1 <= #[trigger] dnas@[k]@[j]
                        <= 255
                },
        decreases qty - i,
    {
        let dna = generate_dna(len);
        dnas.push(dna);
        i = i + 1;
    }
    dnas
}

} // verus!
