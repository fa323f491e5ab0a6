//! The ranker: filters thinly traded candidates out, sorts survivors
//! ascending by win percentage, and assigns integer ranks to the top
//! band — the next generation's selection weights.

use vstd::prelude::*;

use crate::chromosome::Chromosome;
use crate::errors::RunError;
use crate::ratio::Ratio;
use vstd::multiset::Multiset;

verus! {

/// A population with every rank cleared.
pub open spec fn clear_seq(s: Seq<Chromosome>) -> Seq<Chromosome> {
    s.map_values(|c: Chromosome| clear_rank(c))
}

/// The survivors: candidates with strictly more trades than the
/// minimum threshold.
pub open spec fn filtered_spec(s: Seq<Chromosome>, min_trades: i32) -> Seq<Chromosome>
    decreases s.len(),
{
    if s.len() == 0 {
        Seq::empty()
    } else if s.last().num_of_trades > min_trades {
        filtered_spec(s.drop_last(), min_trades).push(s.last())
    } else {
        filtered_spec(s.drop_last(), min_trades)
    }
}

/// A candidate with its rank cleared, for comparing populations up
/// to rank assignment.
pub open spec fn clear_rank(c: Chromosome) -> Chromosome {
    Chromosome { rank: 0, ..c }
}

/// Ordering by win percentage is transitive.
proof fn lemma_pct_le_trans(a: Ratio, b: Ratio, c: Ratio)
    requires
        a.wf(),
        b.wf(),
        c.wf(),
        a.spec_le(b),
        b.spec_le(c),
    ensures
        a.spec_le(c),
{
    assert(a.num * c.den <= c.num * a.den) by (nonlinear_arith)
        requires
            a.den >= 1,
            b.den >= 1,
            c.den >= 1,
            a.num * b.den <= b.num * a.den,
            b.num * c.den <= c.num * b.den,
    ;
}

/// Ascending by win percentage.
pub open spec fn sorted_by_pct(s: Seq<Chromosome>) -> bool {
    forall|i: int, j: int|
        0 <= i < j < s.len() ==> s[i].percentage_winners.spec_le(s[j].percentage_winners)
}

/// Every win percentage is small enough for cross-multiplied
/// comparison.
pub open spec fn pcts_small(s: Seq<Chromosome>) -> bool {
    forall|i: int| 0 <= i < s.len() ==> (#[trigger] s[i]).percentage_winners.small()
}

fn sort_by_pct(v: Vec<Chromosome>) -> (out: Vec<Chromosome>)
    requires
        pcts_small(v@),
    ensures
        out@.len() == v@.len(),
        sorted_by_pct(out@),
        clear_seq(out@).to_multiset() == clear_seq(v@).to_multiset(),
        pcts_small(out@),
{
    let mut rest = v;
    let mut out: Vec<Chromosome> = Vec::new();
    proof {
        clear_seq(out@).to_multiset_ensures();
        clear_seq(rest@).to_multiset_ensures();
        assert(clear_seq(out@) =~= Seq::<Chromosome>::empty());
        assert(clear_seq(out@).to_multiset().add(clear_seq(rest@).to_multiset())
            =~= clear_seq(v@).to_multiset());
    }
    while rest.len() > 0
        invariant
            clear_seq(out@).to_multiset().add(clear_seq(rest@).to_multiset()) =~= clear_seq(
                v@,
            ).to_multiset(),
            sorted_by_pct(out@),
            pcts_small(out@),
            pcts_small(rest@),
            out@.len() + rest@.len() == v@.len(),
        decreases rest@.len(),
    {
        let ghost rest0 = rest@;
        let x = rest.remove(0);
        proof {
            vstd::seq_lib::to_multiset_remove(clear_seq(rest0), 0);
            assert(clear_seq(rest@) =~= clear_seq(rest0).remove(0));
            assert(clear_seq(rest0)[0] == clear_rank(x));
            assert(forall|k: int| 0 <= k < rest@.len() ==> #[trigger] rest@[k] == rest0[k + 1]);
        }
        let mut p: usize = 0;
        while p < out.len() && out[p].percentage_winners.le(&x.percentage_winners)
            invariant
                p <= out@.len(),
                sorted_by_pct(out@),
                pcts_small(out@),
                x.percentage_winners.small(),
                forall|k: int|
                    0 <= k < p ==> (#[trigger] out@[k]).percentage_winners.spec_le(
                        x.percentage_winners,
                    ),
            decreases out@.len() - p,
        {
            p = p + 1;
        }
        let ghost out0 = out@;
        proof {
            if p < out@.len() {
                assert(x.percentage_winners.spec_le(out@[p as int].percentage_winners)) by {
                    let a = out@[p as int].percentage_winners;
                    let b = x.percentage_winners;
                    assert(!(a.num * b.den <= b.num * a.den));
                }
            }
        }
        out.insert(p, x);
        proof {
            vstd::seq_lib::to_multiset_insert(clear_seq(out0), p as int, clear_rank(x));
            assert(clear_seq(out@) =~= clear_seq(out0).insert(p as int, clear_rank(x)));
            assert(clear_seq(rest0).contains(clear_rank(x))) by {
                assert(clear_seq(rest0)[0] == clear_rank(x));
            }
            vstd::seq_lib::to_multiset_contains(clear_seq(rest0), clear_rank(x));
            assert(clear_seq(rest0).to_multiset().count(clear_rank(x)) >= 1);
            assert(clear_seq(out@).to_multiset().add(clear_seq(rest@).to_multiset())
                =~= clear_seq(v@).to_multiset());
            assert(sorted_by_pct(out@)) by {
                assert(forall|k: int| 0 <= k < p ==> #[trigger] out@[k] == out0[k]);
                assert(out@[p as int] == x);
                assert(forall|k: int|
                    p < k < out@.len() ==> #[trigger] out@[k] == out0[k - 1]);
                assert(forall|k: int|
                    p < k < out@.len() ==> x.percentage_winners.spec_le(
                        (#[trigger] out@[k]).percentage_winners,
                    )) by {
                    assert forall|k: int|
                        p < k < out@.len() implies x.percentage_winners.spec_le(
                        (#[trigger] out@[k]).percentage_winners,
                    ) by {
                        if p < out0.len() {
                            lemma_pct_le_trans(
                                x.percentage_winners,
                                out0[p as int].percentage_winners,
                                out0[k - 1].percentage_winners,
                            );
                        }
                    }
                }
            }
        }
    }
    proof {
        assert(clear_seq(rest@).to_multiset() =~= Multiset::<Chromosome>::empty()) by {
            assert(clear_seq(rest@) =~= Seq::<Chromosome>::empty());
            clear_seq(rest@).to_multiset_ensures();
        }
        assert(clear_seq(out@).to_multiset() =~= clear_seq(v@).to_multiset());
    }
    out
}

/// Filters out candidates at or below the trade-count floor, sorts
/// the survivors ascending by win percentage, and ranks the top
/// `fittest` of them 1 (least fit of the band) through `fittest`
/// (most fit); other survivors carry rank 0.  A survivor band
/// smaller than the elite size cannot seed the next generation and
/// aborts the run.
pub fn rank_chromosomes(
    updated_chromosomes: Vec<Chromosome>,
    min_trades: i32,
    fittest: usize,
) -> (r: Result<Vec<Chromosome>, RunError>)
    requires
        1 <= fittest,
        updated_chromosomes@.len() <= 1_000_000,
        pcts_small(updated_chromosomes@),
    ensures
        match r {
            Ok(v) => {
                let f = filtered_spec(updated_chromosomes@, min_trades);
                &&& f.len() >= fittest
                &&& v@.len() == f.len()
                &&& sorted_by_pct(v@)
                &&& clear_seq(v@).to_multiset() == clear_seq(f).to_multiset()
                &&& forall|i: int|
                    0 <= i < v@.len() ==> (#[trigger] v@[i]).rank == (if i >= v@.len() - fittest {
                        i - (v@.len() - fittest) + 1
                    } else {
                        0
                    })
            },
            Err(e) => e == RunError::EmptyPopulation && filtered_spec(
                updated_chromosomes@,
                min_trades,
            ).len() < fittest,
        },
{
    let ghost input = updated_chromosomes@;
    let mut rest = updated_chromosomes;
    let mut filtered_chromosomes: Vec<Chromosome> = Vec::new();
    let ghost total = input.len();
    let mut i: usize = 0;
    proof {
        assert(filtered_spec(input.take(0), min_trades) =~= Seq::<Chromosome>::empty());
        assert(input.skip(0) =~= input);
    }
    while rest.len() > 0
        invariant
            i <= total,
            rest@ == input.skip(i as int),
            total == input.len() <= 1_000_000,
            pcts_small(input),
            filtered_chromosomes@ == filtered_spec(input.take(i as int), min_trades),
            pcts_small(filtered_chromosomes@),
            filtered_chromosomes@.len() <= i,
        decreases rest@.len(),
    {
        let c = rest.remove(0);
        proof {
            assert(input.skip(i as int)[0] == input[i as int]);
            assert(input.skip(i as int).drop_first() =~= input.skip(i as int + 1));
            assert(input.take(i as int + 1).drop_last() =~= input.take(i as int));
            assert(input.take(i as int + 1).last() == input[i as int]);
        }
        if c.num_of_trades > min_trades {
            filtered_chromosomes.push(c);
        }
        i = i + 1;
    }
    proof {
        assert(input.take(total as int) =~= input);
    }
    let ghost f = filtered_spec(input, min_trades);
    if filtered_chromosomes.len() < fittest {
        return Err(RunError::EmptyPopulation);
    }
    let sorted = sort_by_pct(filtered_chromosomes);
    let ghost sorted0 = sorted@;
    let mut v = sorted;
    let end_idx = v.len();
    let start_idx = end_idx - fittest;
    let mut k: usize = 0;
    while k < end_idx
        invariant
            k <= end_idx,
            end_idx == v@.len(),
            start_idx == end_idx - fittest,
            fittest >= 1,
            end_idx == sorted0.len() <= 1_000_000,
            sorted_by_pct(sorted0),
            forall|j: int|
                0 <= j < v@.len() ==> (#[trigger] v@[j]).percentage_winners
                    == sorted0[j].percentage_winners,
            forall|j: int|
                0 <= j < v@.len() ==> clear_rank(#[trigger] v@[j]) == clear_rank(sorted0[j]),
            forall|j: int| k <= j < v@.len() ==> #[trigger] v@[j] == sorted0[j],
            forall|j: int|
                0 <= j < k ==> (#[trigger] v@[j]).rank == (if j >= end_idx - fittest {
                    j - (end_idx - fittest) + 1
                } else {
                    0
                }),
        decreases end_idx - k,
    {
        let ghost before = v@;
        let c = v.remove(k);
        let rank_val: i32 = if k >= start_idx {
            (k - start_idx + 1) as i32
        } else {
            0
        };
        let updated = Chromosome {
            id: c.id,
            target_ticker: c.target_ticker,
            chromosome: c.chromosome,
            dna: c.dna,
            generation: c.generation,
            chromosome_length: c.chromosome_length,
            kelly: c.kelly,
            cum_pnl: c.cum_pnl,
            variance: c.variance,
            mean_return: c.mean_return,
            w_kelly: c.w_kelly,
            num_of_trades: c.num_of_trades,
            winning_trades: c.winning_trades,
            losing_trades: c.losing_trades,
            percentage_winners: c.percentage_winners,
            rank: rank_val,
        };
        v.insert(k, updated);
        proof {
            assert(v@ =~= before.update(k as int, updated));
        }
        k = k + 1;
    }
    proof {
        assert(sorted_by_pct(v@));
        assert(clear_seq(v@) =~= clear_seq(sorted0));
    }
    Ok(v)
}

/// Ranking monotonicity: over the sorted survivor list, the ranks of
/// the elite band rise strictly with the win-percentage order and
/// stay within [1, fittest]; everyone below the band carries rank 0.
pub proof fn lemma_rank_monotonic(v: Seq<Chromosome>, fittest: int)
    requires
        1 <= fittest <= v.len(),
        sorted_by_pct(v),
        forall|i: int|
            0 <= i < v.len() ==> (#[trigger] v[i]).rank == (if i >= v.len() - fittest {
                i - (v.len() - fittest) + 1
            } else {
                0
            }),
    ensures
        forall|i: int, j: int|
            #![trigger v[i], v[j]]
            v.len() - fittest <= i < j < v.len() ==> 1 <= v[i].rank < v[j].rank <= fittest,
        forall|i: int, j: int|
            #![trigger v[i], v[j]]
            v.len() - fittest <= i < j < v.len() ==> v[i].percentage_winners.spec_le(
                v[j].percentage_winners,
            ),
        forall|i: int| 0 <= i < v.len() - fittest ==> (#[trigger] v[i]).rank == 0,
{
}

} // verus!
