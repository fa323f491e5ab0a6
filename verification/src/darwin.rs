//! The genetic operators: mating-pool construction weighted by rank,
//! single-point crossover, and per-codon mutation clamped at 1.

use vstd::prelude::*;

use crate::chromosome::codon_limit;
use crate::chromosome::dna_wf;
use crate::chromosome::generate_chromosomes;
use crate::chromosome::Chromosome;
use crate::chromosome::Grammar;
use crate::config::MUTATE_DEN;
use crate::config::MUTATE_NUM;
use crate::draws::random_chance;
use crate::draws::random_flag;
use crate::draws::random_index;

verus! {

/// A codon clamped from below at 1: a zero parameter would make an
/// indicator read the current bar as its own window.
pub open spec fn spec_floor(base: int) -> int {
    if base < 1 {
        1
    } else {
        base
    }
}

/// Mutation never yields a codon below 1: both reachable outcomes of
/// a mutation step sit at or above the clamp.
pub proof fn lemma_mutation_floor(base: int)
    ensures
        spec_floor(base - 1) >= 1,
        spec_floor(base + 1) >= 1,
{
}

/// Clamps a codon at the minimum of 1.
pub fn floor(base: i32) -> (r: i32)
    ensures
        r == spec_floor(base as int),
{
    if base < 1 {
        return 1;
    }
    base
}

/// Nudges a codon one step up or down, direction drawn at random,
/// clamped at 1.
pub fn mutate_base(base: i32) -> (r: i32)
    requires
        1 <= base <= codon_limit(),
    ensures
        r == spec_floor(base as int + 1) || r == spec_floor(base as int - 1),
        1 <= r <= base + 1,
{
    if random_flag() {
        return floor(base + 1);
    }
    floor(base - 1)
}

/// Mutates each codon independently with probability
/// `MUTATE_NUM / MUTATE_DEN`; unselected codons pass through
/// unchanged.
pub fn mutate_dna(dna: Vec<i32>) -> (out: Vec<i32>)
    requires
        forall|i: int| 0 <= i < dna@.len() ==> 1 <= #[trigger] dna@[i] <= codon_limit() - 1,
    ensures
        out@.len() == dna@.len(),
        forall|i: int|
            0 <= i < out@.len() ==> #[trigger] out@[i] == dna@[i] || out@[i] == spec_floor(
                dna@[i] + 1,
            ) || out@[i] == spec_floor(dna@[i] - 1),
        forall|i: int| 0 <= i < out@.len() ==> 1 <= #[trigger] out@[i] <= dna@[i] + 1,
        dna_wf(out@),
{
    let mut mutated_dna: Vec<i32> = Vec::new();
    let mut i: usize = 0;
    while i < dna.len()
        invariant
            i <= dna@.len(),
            forall|k: int| 0 <= k < dna@.len() ==> 1 <= #[trigger] dna@[k] <= codon_limit() - 1,
            mutated_dna@.len() == i,
            forall|k: int|
                0 <= k < mutated_dna@.len() ==> #[trigger] mutated_dna@[k] == dna@[k]
                    || mutated_dna@[k] == spec_floor(dna@[k] + 1) || mutated_dna@[k] == spec_floor(
                    dna@[k] - 1,
                ),
            forall|k: int| 0 <= k < mutated_dna@.len() ==> 1 <= #[trigger] mutated_dna@[k]
                <= dna@[k] + 1,
        decreases dna@.len() - i,
    {
        let base = dna[i];
        let b: i32 = if random_chance(MUTATE_NUM, MUTATE_DEN) {
            mutate_base(base)
        } else {
            base
        };
        mutated_dna.push(b);
        i = i + 1;
    }
    mutated_dna
}

/// Splices the first parent's prefix up to the locus with the second
/// parent's suffix from the locus on.
pub fn crossover(x: Vec<i32>, y: Vec<i32>, splice_point: usize) -> (out: Vec<i32>)
    requires
        splice_point <= x@.len(),
        splice_point <= y@.len(),
    ensures
        out@ == x@.take(splice_point as int) + y@.skip(splice_point as int),
{
    let mut offspring: Vec<i32> = Vec::new();
    let mut i: usize = 0;
    while i < splice_point
        invariant
            i <= splice_point <= x@.len(),
            offspring@ =~= x@.take(splice_point as int).take(i as int),
            forall|k: int| 0 <= k < offspring@.len() ==> #[trigger] offspring@[k] == x@[k],
            offspring@.len() == i,
        decreases splice_point - i,
    {
        offspring.push(x[i]);
        i = i + 1;
    }
    let mut j: usize = splice_point;
    while j < y.len()
        invariant
            splice_point <= j <= y@.len(),
            offspring@.len() == splice_point + (j - splice_point),
            forall|k: int| 0 <= k < splice_point ==> #[trigger] offspring@[k] == x@[k],
            forall|k: int|
                splice_point <= k < offspring@.len() ==> #[trigger] offspring@[k] == y@[k],
        decreases y@.len() - j,
    {
        offspring.push(y[j]);
        j = j + 1;
    }
    proof {
        assert(offspring@ =~= x@.take(splice_point as int) + y@.skip(splice_point as int));
    }
    offspring
}

/// Picks one codon sequence uniformly at random from the pool.
pub fn get_random_dna(pool: &Vec<Vec<i32>>) -> (d: Vec<i32>)
    requires
        pool@.len() >= 1,
    ensures
        exists|i: int| 0 <= i < pool@.len() && d@ == (#[trigger] pool@[i])@,
{
    let idx = random_index(pool.len());
    let d = pool[idx].clone();
    proof {
        assert(d@ =~= pool@[idx as int]@);
    }
    d
}

/// The fitness-weighted mating pool: each survivor's codon sequence
/// repeated as many times as its rank, so rank 0 contributes nothing.
pub open spec fn pool_spec(cs: Seq<Chromosome>, k: int) -> Seq<Seq<i32>>
    decreases cs.len() - k,
{
    if k < 0 || k >= cs.len() {
        Seq::empty()
    } else {
        rep_spec(cs[k].dna@, cs[k].rank as int) + pool_spec(cs, k + 1)
    }
}

/// `d` repeated `n` times.
pub open spec fn rep_spec(d: Seq<i32>, n: int) -> Seq<Seq<i32>>
    decreases n,
{
    if n <= 0 {
        Seq::empty()
    } else {
        seq![d] + rep_spec(d, n - 1)
    }
}

/// Builds the mating pool from the survivors at `start` onward, each
/// appearing once per unit of rank.
pub fn generate_pool(ranked_chromosomes: &Vec<Chromosome>, start: usize) -> (pool: Vec<Vec<i32>>)
    requires
        start <= ranked_chromosomes@.len(),
    ensures
        pool@.map_values(|d: Vec<i32>| d@) == pool_spec(ranked_chromosomes@, start as int),
        forall|i: int|
            0 <= i < pool@.len() ==> exists|j: int|
                start <= j < ranked_chromosomes@.len() && (#[trigger] pool@[i])@
                    == ranked_chromosomes@[j].dna@,
{
    let ghost cs = ranked_chromosomes@;
    let mut pool: Vec<Vec<i32>> = Vec::new();
    let mut k: usize = start;
    proof {
        assert(pool@.map_values(|d: Vec<i32>| d@) =~= Seq::<Seq<i32>>::empty());
    }
    while k < ranked_chromosomes.len()
        invariant
            start <= k <= cs.len(),
            cs == ranked_chromosomes@,
            pool_spec(cs, start as int) == pool@.map_values(|d: Vec<i32>| d@) + pool_spec(
                cs,
                k as int,
            ),
            forall|i: int|
                0 <= i < pool@.len() ==> exists|j: int|
                    start <= j < cs.len() && (#[trigger] pool@[i])@ == cs[j].dna@,
        decreases cs.len() - k,
    {
        let c = &ranked_chromosomes[k];
        let rank = c.rank;
        let mut r: i32 = 0;
        proof {
            assert(rep_spec(cs[k as int].dna@, rank as int - rank as int)
                =~= Seq::<Seq<i32>>::empty());
        }
        while r < rank
            invariant
                0 <= r,
                rank == cs[k as int].rank,
                start <= k < cs.len(),
                cs == ranked_chromosomes@,
                pool_spec(cs, start as int) == pool@.map_values(|d: Vec<i32>| d@) + rep_spec(
                    cs[k as int].dna@,
                    rank as int - r as int,
                ) + pool_spec(cs, k as int + 1),
                forall|i: int|
                    0 <= i < pool@.len() ==> exists|j: int|
                        start <= j < cs.len() && (#[trigger] pool@[i])@ == cs[j].dna@,
            decreases rank - r,
        {
            let ghost before = pool@;
            let d = ranked_chromosomes[k].dna.clone();
            proof {
                assert(d@ =~= cs[k as int].dna@);
            }
            pool.push(d);
            proof {
                assert(pool@.map_values(|dd: Vec<i32>| dd@) =~= before.map_values(
                    |dd: Vec<i32>| dd@,
                ).push(cs[k as int].dna@));
                assert(rep_spec(cs[k as int].dna@, rank as int - r as int) == seq![
                    cs[k as int].dna@,
                ] + rep_spec(cs[k as int].dna@, rank as int - r as int - 1));
                assert(before.map_values(|dd: Vec<i32>| dd@) + (seq![cs[k as int].dna@]
                    + rep_spec(cs[k as int].dna@, rank as int - r as int - 1)) + pool_spec(
                    cs,
                    k as int + 1,
                ) =~= pool@.map_values(|dd: Vec<i32>| dd@) + rep_spec(
                    cs[k as int].dna@,
                    rank as int - r as int - 1,
                ) + pool_spec(cs, k as int + 1));
            }
            r = r + 1;
        }
        proof {
            assert(rep_spec(cs[k as int].dna@, 0) =~= Seq::<Seq<i32>>::empty());
            assert(pool@.map_values(|dd: Vec<i32>| dd@) + Seq::<Seq<i32>>::empty() + pool_spec(
                cs,
                k as int + 1,
            ) =~= pool@.map_values(|dd: Vec<i32>| dd@) + pool_spec(cs, k as int + 1));
        }
        k = k + 1;
    }
    proof {
        assert(pool_spec(cs, cs.len() as int) =~= Seq::<Seq<i32>>::empty());
        assert(pool@.map_values(|dd: Vec<i32>| dd@) + Seq::<Seq<i32>>::empty() =~= pool@.map_values(
            |dd: Vec<i32>| dd@,
        ));
    }
    pool
}

/// The codon sequences a vector of owned sequences stands for.
pub open spec fn dnas_views(p: Seq<Vec<i32>>) -> Seq<Seq<i32>> {
    p.map_values(|d: Vec<i32>| d@)
}

/// `o` is what one mutation pass can make of `spl`: same length,
/// each codon unchanged or nudged one step and clamped at 1.
pub open spec fn offspring_of(o: Seq<i32>, spl: Seq<i32>) -> bool {
    &&& o.len() == spl.len()
    &&& forall|j: int|
        0 <= j < o.len() ==> #[trigger] o[j] == spl[j] || o[j] == spec_floor(spl[j] + 1) || o[j]
            == spec_floor(spl[j] - 1)
}

/// `o` derives from the mating pool: it is a mutation pass over a
/// one-locus splice of two pool members.
pub open spec fn bred_from(o: Seq<i32>, pool: Seq<Seq<i32>>) -> bool {
    exists|xi: int, yi: int, s: int|
        #![trigger pool[xi].take(s), pool[yi].skip(s)]
        {
            &&& 0 <= xi < pool.len()
            &&& 0 <= yi < pool.len()
            &&& 0 <= s < pool[xi].len()
            &&& offspring_of(o, pool[xi].take(s) + pool[yi].skip(s))
        }
}

/// Breeds the next population: each offspring splices two pool draws
/// at a random locus and passes through mutation.
pub fn mate(pool: &Vec<Vec<i32>>, population_size: usize) -> (out: Vec<Vec<i32>>)
    requires
        pool@.len() >= 1,
        forall|i: int|
            0 <= i < pool@.len() ==> {
                &&& (#[trigger] pool@[i])@.len() == pool@[0]@.len()
                &&& pool@[i]@.len() >= 1
                &&& forall|k: int| 0 <= k < pool@[i]@.len() ==> 1 <= #[trigger] pool@[i]@[k]
                    <= codon_limit() - 1
            },
    ensures
        out@.len() == population_size,
        forall|i: int|
            0 <= i < out@.len() ==> {
                &&& (#[trigger] out@[i])@.len() == pool@[0]@.len()
                &&& dna_wf(out@[i]@)
                &&& forall|k: int| 0 <= k < out@[i]@.len() ==> 1 <= #[trigger] out@[i]@[k]
                    <= codon_limit()
            },
        forall|i: int| 0 <= i < out@.len() ==> bred_from((#[trigger] out@[i])@, dnas_views(pool@)),
{
    let ghost target_len = pool@[0]@.len();
    let mut new_dnas: Vec<Vec<i32>> = Vec::new();
    let mut i: usize = 0;
    while i < population_size
        invariant
            i <= population_size,
            pool@.len() >= 1,
            forall|k: int|
                0 <= k < pool@.len() ==> {
                    &&& (#[trigger] pool@[k])@.len() == target_len
                    &&& pool@[k]@.len() >= 1
                    &&& forall|j: int| 0 <= j < pool@[k]@.len() ==> 1 <= #[trigger] pool@[k]@[j]
                        <= codon_limit() - 1
                },
            target_len == pool@[0]@.len(),
            new_dnas@.len() == i,
            forall|k: int|
                0 <= k < new_dnas@.len() ==> {
                    &&& (#[trigger] new_dnas@[k])@.len() == target_len
                    &&& dna_wf(new_dnas@[k]@)
                    &&& forall|j: int| 0 <= j < new_dnas@[k]@.len() ==> 1
                        <= #[trigger] new_dnas@[k]@[j] <= codon_limit()
                },
            forall|k: int|
                0 <= k < new_dnas@.len() ==> bred_from(
                    (#[trigger] new_dnas@[k])@,
                    dnas_views(pool@),
                ),
        decreases population_size - i,
    {
        let x_dna = get_random_dna(pool);
        let y_dna = get_random_dna(pool);
        let splice_point = random_index(x_dna.len());
        let ghost xd = x_dna@;
        let ghost yd = y_dna@;
        let spliced = crossover(x_dna, y_dna, splice_point);
        let offspring = mutate_dna(spliced);
        proof {
            let pv = dnas_views(pool@);
            let xi = choose|ii: int| 0 <= ii < pool@.len() && xd == (#[trigger] pool@[ii])@;
            let yi = choose|ii: int| 0 <= ii < pool@.len() && yd == (#[trigger] pool@[ii])@;
            let s = splice_point as int;
            assert(pv[xi] == pool@[xi]@);
            assert(pv[yi] == pool@[yi]@);
            assert(spliced@ == pv[xi].take(s) + pv[yi].skip(s));
            assert(offspring_of(offspring@, pv[xi].take(s) + pv[yi].skip(s)));
            assert(0 <= s < pv[xi].len());
            assert(bred_from(offspring@, pv));
        }
        new_dnas.push(offspring);
        i = i + 1;
    }
    new_dnas
}

/// Evolves the ranked survivors into the next generation: the
/// fittest band seeds a rank-weighted pool, pairs are drawn and
/// crossed, offspring are mutated and decoded.
pub fn evolve(
    ranked_chromosomes: Vec<Chromosome>,
    generation: i32,
    grammar: &Grammar,
    ticker: &str,
    fittest: usize,
    population_size: usize,
) -> (out: Vec<Chromosome>)
    requires
        grammar.wf(),
        1 <= fittest <= ranked_chromosomes@.len(),
        pool_spec(
            ranked_chromosomes@,
            ranked_chromosomes@.len() - fittest,
        ).len() >= 1,
        forall|i: int|
            0 <= i < ranked_chromosomes@.len() ==> {
                &&& 1 <= (#[trigger] ranked_chromosomes@[i]).dna@.len() <= 4096
                &&& forall|k: int|
                    0 <= k < ranked_chromosomes@[i].dna@.len() ==> 1
                        <= #[trigger] ranked_chromosomes@[i].dna@[k] <= codon_limit() - 1
                &&& ranked_chromosomes@[i].dna@.len() == ranked_chromosomes@[0].dna@.len()
            },
    ensures
        out@.len() == population_size,
        forall|i: int|
            0 <= i < out@.len() ==> crate::chromosome::chrom_fresh(
                #[trigger] out@[i],
                out@[i].dna@,
                generation as int,
                ticker@,
                grammar.tks(),
                grammar.sts(),
            ),
        forall|i: int|
            0 <= i < out@.len() ==> bred_from(
                (#[trigger] out@[i]).dna@,
                pool_spec(ranked_chromosomes@, ranked_chromosomes@.len() - fittest),
            ),
{
    let ghost cs = ranked_chromosomes@;
    let start = ranked_chromosomes.len() - fittest;
    let pool = generate_pool(&ranked_chromosomes, start);
    proof {
        assert(pool@.len() == pool_spec(cs, start as int).len());
        assert(forall|i: int|
            0 <= i < pool@.len() ==> (#[trigger] pool@[i])@.len() == pool@[0]@.len()
                && pool@[i]@.len() >= 1 && forall|k: int|
                0 <= k < pool@[i]@.len() ==> 1 <= #[trigger] pool@[i]@[k] <= codon_limit() - 1);
    }
    let dnas = mate(&pool, population_size);
    proof {
        assert(forall|i: int|
            0 <= i < dnas@.len() ==> dna_wf((#[trigger] dnas@[i])@) && dnas@[i]@.len() <= 4096);
        assert(dnas_views(pool@) == pool_spec(cs, start as int));
        assert(forall|i: int|
            0 <= i < dnas@.len() ==> bred_from((#[trigger] dnas@[i])@, pool_spec(cs, start as int)));
    }
    let out = generate_chromosomes(dnas, generation, ticker, grammar);
    proof {
        assert(forall|i: int|
            0 <= i < out@.len() ==> bred_from(
                (#[trigger] out@[i]).dna@,
                pool_spec(cs, start as int),
            ));
    }
    out
}

} // verus!
