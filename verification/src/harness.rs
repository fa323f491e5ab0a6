//! The execution harness: one generation end-to-end.  Candidates
//! whose program text was already evaluated in any earlier generation
//! are skipped against a run-wide cache that only ever grows; every
//! other candidate is evaluated and collected; ranking then closes
//! the generation barrier before the next generation begins.

use vstd::prelude::*;

use crate::chromosome::Chromosome;
use crate::errors::RunError;
use crate::ranker::rank_chromosomes;
use crate::schemas::QuotesRepo;
use crate::schemas::ReturnsTable;
use crate::text::views;
use crate::trade_signal::SignalRecV;
use crate::vger::calc_pnl;
use crate::vger::fitness_of;
use crate::vger::lemma_fitness_unique;
use crate::vger::calc_rec;
use crate::vger::generate_signals;
use crate::vger::lemma_map_len_bounded;
use crate::vger::merge_rec;
use crate::vger::merge_returns;
use crate::vger::repo_bounded;
use crate::vger::spec_fitness;
use crate::vger::spec_generate_signals;
use crate::vger::update_chromosome;

verus! {

/// The per-bar records a fully processed candidate ends with: the
/// replayed signals, with forward returns merged and hard triggers
/// and pnl computed.
pub open spec fn spec_eval_recs(
    c: Chromosome,
    entries: Seq<(String, Vec<crate::schemas::Quote>)>,
    ret_entries: Seq<crate::schemas::Return>,
) -> Result<Seq<SignalRecV>, RunError> {
    match spec_generate_signals(c, entries) {
        Err(e) => Err(e),
        Ok(m0) => Ok(
            Seq::new(
                m0.len(),
                |i: int| calc_rec(merge_rec(m0[i], ret_entries), c.chromosome_length as int),
            ),
        ),
    }
}

/// Evaluates one candidate: replays its clauses, merges returns,
/// computes triggers and pnl, and fills the fitness record.
pub fn process_chromosome(
    chromosome: Chromosome,
    quotes_repo: &QuotesRepo,
    rets: &ReturnsTable,
) -> (r: Result<Chromosome, RunError>)
    requires
        quotes_repo.wf(),
        repo_bounded(quotes_repo.entries@),
        rets.wf(),
    ensures
        match r {
            Ok(out) => {
                &&& spec_eval_recs(chromosome, quotes_repo.entries@, rets.entries@) is Ok
                &&& spec_fitness(
                    out,
                    chromosome,
                    spec_eval_recs(chromosome, quotes_repo.entries@, rets.entries@)->Ok_0,
                )
            },
            Err(e) => spec_eval_recs(chromosome, quotes_repo.entries@, rets.entries@) == Err::<
                Seq<SignalRecV>,
                RunError,
            >(e),
        },
{
    let mut trade_signals = match generate_signals(&chromosome, quotes_repo) {
        Ok(m) => m,
        Err(e) => {
            return Err(e);
        },
    };
    let ghost gen_recs = trade_signals.recs();
    proof {
        lemma_map_len_bounded(gen_recs, quotes_repo.entries@);
    }
    merge_returns(&mut trade_signals, rets);
    calc_pnl(&mut trade_signals, &chromosome);
    proof {
        assert(trade_signals.recs() =~= Seq::new(
            gen_recs.len(),
            |i: int|
                calc_rec(
                    merge_rec(gen_recs[i], rets.entries@),
                    chromosome.chromosome_length as int,
                ),
        ));
    }
    let updated = update_chromosome(chromosome, trade_signals);
    Ok(updated)
}

/// Whether a program text is already in the cache.
pub open spec fn seen_has(seen: Seq<Seq<char>>, t: Seq<char>) -> bool {
    exists|j: int| 0 <= j < seen.len() && seen[j] == t
}

/// Dispatching candidates `k` onward against the cache: the final
/// cache contents and the indices of the candidates actually
/// evaluated, in order.  A candidate whose text is already cached is
/// dropped — it contributes no result — and every evaluated
/// candidate's text enters the cache first.
pub open spec fn spec_dedup(cs: Seq<Chromosome>, seen: Seq<Seq<char>>, k: int) -> (
    Seq<Seq<char>>,
    Seq<int>,
)
    decreases cs.len() - k,
{
    if k < 0 || k >= cs.len() {
        (seen, Seq::empty())
    } else if seen_has(seen, cs[k].chromosome@) {
        spec_dedup(cs, seen, k + 1)
    } else {
        let rec = spec_dedup(cs, seen.push(cs[k].chromosome@), k + 1);
        (rec.0, seq![k] + rec.1)
    }
}

/// Deduplication law: no evaluated candidate's program text was in
/// the cache when the generation began, and no two evaluated
/// candidates of the generation share a program text — a text
/// evaluated once is never evaluated again.
pub proof fn lemma_dedup_no_repeat(cs: Seq<Chromosome>, seen: Seq<Seq<char>>, k: int)
    ensures
        forall|a: int|
            0 <= a < spec_dedup(cs, seen, k).1.len() ==> {
                let i = #[trigger] spec_dedup(cs, seen, k).1[a];
                k <= i < cs.len() && !seen_has(seen, cs[i].chromosome@)
            },
        forall|a: int, b: int|
            #![trigger spec_dedup(cs, seen, k).1[a], spec_dedup(cs, seen, k).1[b]]
            0 <= a < b < spec_dedup(cs, seen, k).1.len()
                ==> cs[spec_dedup(cs, seen, k).1[a]].chromosome@ != cs[spec_dedup(
                cs,
                seen,
                k,
            ).1[b]].chromosome@,
    decreases cs.len() - k,
{
    if k < 0 || k >= cs.len() {
        assert(spec_dedup(cs, seen, k).1.len() == 0);
    } else if seen_has(seen, cs[k].chromosome@) {
        lemma_dedup_no_repeat(cs, seen, k + 1);
        assert(spec_dedup(cs, seen, k) == spec_dedup(cs, seen, k + 1));
    } else {
        let seen2 = seen.push(cs[k].chromosome@);
        lemma_dedup_no_repeat(cs, seen2, k + 1);
        let rec = spec_dedup(cs, seen2, k + 1);
        let out = spec_dedup(cs, seen, k);
        assert(out.1 == seq![k] + rec.1);
        assert(forall|t: Seq<char>| seen_has(seen, t) ==> seen_has(seen2, t)) by {
            assert(forall|j: int| 0 <= j < seen.len() ==> seen2[j] == seen[j]);
        }
        assert(seen_has(seen2, cs[k].chromosome@)) by {
            assert(seen2[seen.len() as int] == cs[k].chromosome@);
        }
        assert(forall|a: int| 0 <= a < rec.1.len() ==> #[trigger] out.1[a + 1] == rec.1[a]);
        assert(out.1[0] == k);
        assert forall|a: int| 0 <= a < out.1.len() implies {
            let i = #[trigger] out.1[a];
            k <= i < cs.len() && !seen_has(seen, cs[i].chromosome@)
        } by {
            if a == 0 {
                assert(out.1[0] == k);
            } else {
                assert(out.1[a] == rec.1[a - 1]);
                assert(k + 1 <= rec.1[a - 1] < cs.len());
                assert(!seen_has(seen2, cs[rec.1[a - 1]].chromosome@));
            }
        }
        assert forall|a: int, b: int|
            #![trigger out.1[a], out.1[b]]
            0 <= a < b < out.1.len() implies cs[out.1[a]].chromosome@ != cs[out.1[b]].chromosome@ by {
            if a == 0 {
                assert(out.1[b] == rec.1[b - 1]);
                assert(!seen_has(seen2, cs[rec.1[b - 1]].chromosome@));
                assert(cs[out.1[b]].chromosome@ != cs[k].chromosome@);
            } else {
                assert(out.1[a] == rec.1[a - 1]);
                assert(out.1[b] == rec.1[b - 1]);
            }
        }
    }
}

/// The generation's collected results, determined by the incoming
/// cache and the market data alone: the fitness record of every
/// non-duplicate candidate in dispatch order, or the first
/// evaluation error.
pub open spec fn spec_results(
    cs: Seq<Chromosome>,
    seen: Seq<Seq<char>>,
    entries: Seq<(String, Vec<crate::schemas::Quote>)>,
    ret_entries: Seq<crate::schemas::Return>,
    k: int,
) -> Result<Seq<Chromosome>, RunError>
    decreases cs.len() - k,
{
    if k < 0 || k >= cs.len() {
        Ok(Seq::empty())
    } else if seen_has(seen, cs[k].chromosome@) {
        spec_results(cs, seen, entries, ret_entries, k + 1)
    } else {
        match spec_eval_recs(cs[k], entries, ret_entries) {
            Err(e) => Err(e),
            Ok(recs) => match spec_results(
                cs,
                seen.push(cs[k].chromosome@),
                entries,
                ret_entries,
                k + 1,
            ) {
                Err(e2) => Err(e2),
                Ok(rest) => Ok(seq![fitness_of(cs[k], recs)] + rest),
            },
        }
    }
}

/// When every dispatched candidate evaluates cleanly, the collected
/// results are exactly the fitness records of the deduplicated
/// candidates, in dispatch order.
proof fn lemma_results_of_dedup(
    cs: Seq<Chromosome>,
    seen: Seq<Seq<char>>,
    entries: Seq<(String, Vec<crate::schemas::Quote>)>,
    ret_entries: Seq<crate::schemas::Return>,
    k: int,
)
    requires
        forall|a: int|
            0 <= a < spec_dedup(cs, seen, k).1.len() ==> spec_eval_recs(
                cs[#[trigger] spec_dedup(cs, seen, k).1[a]],
                entries,
                ret_entries,
            ) is Ok,
    ensures
        spec_results(cs, seen, entries, ret_entries, k) == Ok::<Seq<Chromosome>, RunError>(
            Seq::new(
                spec_dedup(cs, seen, k).1.len() as nat,
                |a: int|
                    fitness_of(
                        cs[spec_dedup(cs, seen, k).1[a]],
                        spec_eval_recs(cs[spec_dedup(cs, seen, k).1[a]], entries, ret_entries)->Ok_0,
                    ),
            ),
        ),
    decreases cs.len() - k,
{
    let dd = spec_dedup(cs, seen, k);
    if k < 0 || k >= cs.len() {
        assert(dd.1.len() == 0);
        assert(Seq::new(0nat, |a: int| fitness_of(cs[dd.1[a]], spec_eval_recs(cs[dd.1[a]], entries, ret_entries)->Ok_0)) =~= Seq::<Chromosome>::empty());
    } else if seen_has(seen, cs[k].chromosome@) {
        assert(dd == spec_dedup(cs, seen, k + 1));
        lemma_results_of_dedup(cs, seen, entries, ret_entries, k + 1);
    } else {
        let seen2 = seen.push(cs[k].chromosome@);
        let rec = spec_dedup(cs, seen2, k + 1);
        assert(dd.1 == seq![k] + rec.1);
        assert(dd.1[0] == k);
        assert(forall|a: int| 0 <= a < rec.1.len() ==> #[trigger] dd.1[a + 1] == rec.1[a]);
        assert(spec_eval_recs(cs[k], entries, ret_entries) is Ok);
        assert(forall|a: int|
            0 <= a < rec.1.len() ==> spec_eval_recs(
                cs[#[trigger] rec.1[a]],
                entries,
                ret_entries,
            ) is Ok) by {
            assert(forall|a: int|
                0 <= a < rec.1.len() ==> #[trigger] rec.1[a] == dd.1[a + 1]);
        }
        lemma_results_of_dedup(cs, seen2, entries, ret_entries, k + 1);
        let rest = Seq::new(
            rec.1.len() as nat,
            |a: int|
                fitness_of(
                    cs[rec.1[a]],
                    spec_eval_recs(cs[rec.1[a]], entries, ret_entries)->Ok_0,
                ),
        );
        assert(spec_results(cs, seen, entries, ret_entries, k) == Ok::<Seq<Chromosome>, RunError>(
            seq![
                fitness_of(cs[k], spec_eval_recs(cs[k], entries, ret_entries)->Ok_0),
            ] + rest,
        ));
        assert(seq![
            fitness_of(cs[k], spec_eval_recs(cs[k], entries, ret_entries)->Ok_0),
        ] + rest =~= Seq::new(
            dd.1.len() as nat,
            |a: int|
                fitness_of(
                    cs[dd.1[a]],
                    spec_eval_recs(cs[dd.1[a]], entries, ret_entries)->Ok_0,
                ),
        ));
    }
}

/// Whether a candidate's program text is already in the run-wide
/// cache: the dispatch decision the driver makes per candidate.
pub fn cache_contains(cache: &Vec<String>, text: &String) -> (b: bool)
    ensures
        b == seen_has(views(cache@), text@),
{
    let n = cache.len();
    let mut i: usize = 0;
    while i < n
        invariant
            i <= n,
            n == cache@.len(),
            forall|j: int| 0 <= j < i ==> views(cache@)[j] != text@,
        decreases n - i,
    {
        proof {
            assert(views(cache@)[i as int] == cache@[i as int]@);
        }
        if cache[i].eq(text) {
            return true;
        }
        i = i + 1;
    }
    proof {
        assert(!seen_has(views(cache@), text@));
    }
    false
}

/// Dispatches one generation's candidates: skips any whose program
/// text the run has already evaluated, evaluates the rest in order,
/// and collects exactly one result per evaluated candidate.  The
/// cache grows by the evaluated texts and is never evicted.
pub fn process_chromosomes(
    chromosomes: Vec<Chromosome>,
    completed_chromosomes: &mut Vec<String>,
    quotes_repo: &QuotesRepo,
    rets: &ReturnsTable,
) -> (r: Result<Vec<Chromosome>, RunError>)
    requires
        quotes_repo.wf(),
        repo_bounded(quotes_repo.entries@),
        rets.wf(),
    ensures
        match r {
            Ok(results) => {
                let dd = spec_dedup(chromosomes@, views(old(completed_chromosomes)@), 0);
                &&& views(final(completed_chromosomes)@) == dd.0
                &&& results@.len() == dd.1.len()
                &&& forall|a: int|
                    0 <= a < results@.len() ==> 0 <= #[trigger] dd.1[a] < chromosomes@.len()
                &&& forall|a: int|
                    0 <= a < results@.len() ==> spec_eval_recs(
                        chromosomes@[#[trigger] dd.1[a]],
                        quotes_repo.entries@,
                        rets.entries@,
                    ) is Ok
                &&& forall|a: int|
                    0 <= a < results@.len() ==> spec_fitness(
                        #[trigger] results@[a],
                        chromosomes@[dd.1[a]],
                        spec_eval_recs(
                            chromosomes@[dd.1[a]],
                            quotes_repo.entries@,
                            rets.entries@,
                        )->Ok_0,
                    )
            },
            Err(e) => exists|i: int|
                0 <= i < chromosomes@.len() && #[trigger] spec_eval_recs(
                    chromosomes@[i],
                    quotes_repo.entries@,
                    rets.entries@,
                ) == Err::<Seq<SignalRecV>, RunError>(e),
        },
{
    let ghost cs = chromosomes@;
    let ghost seen0 = views(completed_chromosomes@);
    let n = chromosomes.len();
    let mut rest = chromosomes;
    let mut results: Vec<Chromosome> = Vec::new();
    let ghost mut idxs: Seq<int> = Seq::empty();
    let mut k: usize = 0;
    proof {
        assert(rest@ =~= cs.skip(0));
    }
    while rest.len() > 0
        invariant
            k <= n,
            n == cs.len(),
            cs == chromosomes@,
            rest@ == cs.skip(k as int),
            quotes_repo.wf(),
            repo_bounded(quotes_repo.entries@),
            rets.wf(),
            spec_dedup(cs, seen0, 0) == {
                let sub = spec_dedup(cs, views(completed_chromosomes@), k as int);
                (sub.0, idxs + sub.1)
            },
            results@.len() == idxs.len(),
            forall|a: int| 0 <= a < results@.len() ==> 0 <= #[trigger] idxs[a] < cs.len(),
            forall|a: int|
                0 <= a < results@.len() ==> spec_eval_recs(
                    cs[#[trigger] idxs[a]],
                    quotes_repo.entries@,
                    rets.entries@,
                ) is Ok,
            forall|a: int|
                0 <= a < results@.len() ==> spec_fitness(
                    #[trigger] results@[a],
                    cs[idxs[a]],
                    spec_eval_recs(cs[idxs[a]], quotes_repo.entries@, rets.entries@)->Ok_0,
                ),
        decreases rest@.len(),
    {
        let chromosome = rest.remove(0);
        proof {
            assert(cs.skip(k as int)[0] == cs[k as int]);
            assert(cs.skip(k as int).drop_first() =~= cs.skip(k as int + 1));
            assert(chromosome == cs[k as int]);
        }
        let already = cache_contains(completed_chromosomes, &chromosome.chromosome);
        if already {
            proof {
                assert(seen_has(views(completed_chromosomes@), cs[k as int].chromosome@));
                assert(spec_dedup(cs, views(completed_chromosomes@), k as int) == spec_dedup(
                    cs,
                    views(completed_chromosomes@),
                    k as int + 1,
                ));
            }
        }
        if !already {
            let ghost cache_before = views(completed_chromosomes@);
            completed_chromosomes.push(chromosome.chromosome.clone());
            proof {
                assert(views(completed_chromosomes@) =~= cache_before.push(
                    cs[k as int].chromosome@,
                ));
            }
            let out = match process_chromosome(chromosome, quotes_repo, rets) {
                Ok(out) => out,
                Err(e) => {
                    proof {
                        assert(0 <= k < cs.len());
                        assert(spec_eval_recs(cs[k as int], quotes_repo.entries@, rets.entries@)
                            == Err::<Seq<SignalRecV>, RunError>(e));
                        assert(exists|i: int|
                            0 <= i < cs.len() && spec_eval_recs(
                                #[trigger] cs[i],
                                quotes_repo.entries@,
                                rets.entries@,
                            ) == Err::<Seq<SignalRecV>, RunError>(e));
                    }
                    return Err(e);
                },
            };
            let ghost results_before = results@;
            let ghost idxs_before = idxs;
            results.push(out);
            proof {
                idxs = idxs.push(k as int);
                assert(results@[results@.len() - 1] == out);
                assert(idxs[idxs.len() - 1] == k as int);
                assert(forall|a: int|
                    0 <= a < results_before.len() ==> #[trigger] idxs[a] == idxs_before[a]);
                assert(idxs + spec_dedup(cs, views(completed_chromosomes@), k as int + 1).1
                    =~= idxs_before + (seq![k as int] + spec_dedup(
                    cs,
                    views(completed_chromosomes@),
                    k as int + 1,
                ).1));
                assert(forall|a: int|
                    0 <= a < results_before.len() ==> #[trigger] results@[a]
                        == results_before[a]);
                assert forall|a: int| 0 <= a < results@.len() implies {
                    &&& 0 <= #[trigger] idxs[a] < cs.len()
                    &&& spec_eval_recs(cs[idxs[a]], quotes_repo.entries@, rets.entries@) is Ok
                    &&& spec_fitness(
                        results@[a],
                        cs[idxs[a]],
                        spec_eval_recs(cs[idxs[a]], quotes_repo.entries@, rets.entries@)->Ok_0,
                    )
                } by {
                    if a < results_before.len() {
                        assert(results@[a] == results_before[a]);
                        assert(idxs[a] == idxs_before[a]);
                    } else {
                        assert(a == results@.len() - 1);
                        assert(results@[a] == out);
                        assert(idxs[a] == k as int);
                        assert(chromosome == cs[k as int]);
                    }
                }
            }
        }
        k = k + 1;
    }
    proof {
        assert(k == cs.len());
        assert(spec_dedup(cs, views(completed_chromosomes@), k as int) == (
            views(completed_chromosomes@),
            Seq::<int>::empty(),
        ));
        assert(idxs + Seq::<int>::empty() =~= idxs);
        assert(spec_dedup(cs, seen0, 0).0 == views(completed_chromosomes@));
        assert(spec_dedup(cs, seen0, 0).1 == idxs);
        assert forall|a: int| 0 <= a < results@.len() implies {
            let i = spec_dedup(cs, seen0, 0).1[a];
            &&& 0 <= i < cs.len()
            &&& spec_eval_recs(cs[i], quotes_repo.entries@, rets.entries@) is Ok
            &&& spec_fitness(
                #[trigger] results@[a],
                cs[i],
                spec_eval_recs(cs[i], quotes_repo.entries@, rets.entries@)->Ok_0,
            )
        } by {
            assert(spec_dedup(cs, seen0, 0).1[a] == idxs[a]);
        }
    }
    Ok(results)
}

/// Runs one generation end-to-end, sequentially: dispatch with
/// run-wide deduplication, the collection barrier (every evaluated
/// candidate's result is in hand before ranking), and ranking.  The
/// collected results are pinned by `spec_results`; ranking succeeds
/// exactly when their survivors fill the elite band, and
/// `EmptyPopulation` is tied to the survivor shortfall.
pub fn run_generation(
    chromosomes: Vec<Chromosome>,
    completed_chromosomes: &mut Vec<String>,
    quotes_repo: &QuotesRepo,
    rets: &ReturnsTable,
    min_trades: i32,
    fittest: usize,
) -> (r: Result<Vec<Chromosome>, RunError>)
    requires
        quotes_repo.wf(),
        repo_bounded(quotes_repo.entries@),
        rets.wf(),
        1 <= fittest,
        chromosomes@.len() <= 1_000_000,
    ensures
        match r {
            Ok(v) => {
                let rs = spec_results(
                    chromosomes@,
                    views(old(completed_chromosomes)@),
                    quotes_repo.entries@,
                    rets.entries@,
                    0,
                );
                let f = crate::ranker::filtered_spec(rs->Ok_0, min_trades);
                &&& rs is Ok
                &&& views(final(completed_chromosomes)@) == spec_dedup(
                    chromosomes@,
                    views(old(completed_chromosomes)@),
                    0,
                ).0
                &&& f.len() >= fittest
                &&& v@.len() == f.len()
                &&& crate::ranker::sorted_by_pct(v@)
                &&& crate::ranker::clear_seq(v@).to_multiset() == crate::ranker::clear_seq(
                    f,
                ).to_multiset()
                &&& forall|i: int|
                    0 <= i < v@.len() ==> (#[trigger] v@[i]).rank == (if i >= v@.len() - fittest {
                        i - (v@.len() - fittest) + 1
                    } else {
                        0
                    })
            },
            Err(e) => {
                let rs = spec_results(
                    chromosomes@,
                    views(old(completed_chromosomes)@),
                    quotes_repo.entries@,
                    rets.entries@,
                    0,
                );
                ||| exists|i: int|
                    0 <= i < chromosomes@.len() && #[trigger] spec_eval_recs(
                        chromosomes@[i],
                        quotes_repo.entries@,
                        rets.entries@,
                    ) == Err::<Seq<SignalRecV>, RunError>(e)
                ||| {
                    &&& e == RunError::EmptyPopulation
                    &&& rs is Ok
                    &&& crate::ranker::filtered_spec(rs->Ok_0, min_trades).len() < fittest
                }
            },
        },
{
    let results = match process_chromosomes(chromosomes, completed_chromosomes, quotes_repo, rets) {
        Ok(v) => v,
        Err(e) => {
            return Err(e);
        },
    };
    proof {
        let cs = chromosomes@;
        let seen0 = views(old(completed_chromosomes)@);
        let dd = spec_dedup(cs, seen0, 0);
        lemma_dedup_len(cs, seen0, 0);
        assert(results@.len() == dd.1.len());
        assert(results@.len() <= cs.len());
        assert(crate::ranker::pcts_small(results@));
        assert forall|a: int| 0 <= a < dd.1.len() implies spec_eval_recs(
            cs[#[trigger] dd.1[a]],
            quotes_repo.entries@,
            rets.entries@,
        ) is Ok by {
            assert(0 <= a < results@.len());
        }
        lemma_results_of_dedup(cs, seen0, quotes_repo.entries@, rets.entries@, 0);
        let rs = spec_results(cs, seen0, quotes_repo.entries@, rets.entries@, 0);
        assert forall|a: int| 0 <= a < results@.len() implies #[trigger] results@[a]
            == rs->Ok_0[a] by {
            lemma_fitness_unique(
                results@[a],
                cs[dd.1[a]],
                spec_eval_recs(cs[dd.1[a]], quotes_repo.entries@, rets.entries@)->Ok_0,
            );
        }
        assert(results@ =~= rs->Ok_0);
    }
    rank_chromosomes(results, min_trades, fittest)
}

/// No more candidates are evaluated than were dispatched.
proof fn lemma_dedup_len(cs: Seq<Chromosome>, seen: Seq<Seq<char>>, k: int)
    requires
        0 <= k <= cs.len(),
    ensures
        spec_dedup(cs, seen, k).1.len() <= cs.len() - k,
    decreases cs.len() - k,
{
    if k < 0 || k >= cs.len() {
    } else if seen_has(seen, cs[k].chromosome@) {
        lemma_dedup_len(cs, seen, k + 1);
        assert(spec_dedup(cs, seen, k).1 == spec_dedup(cs, seen, k + 1).1);
    } else {
        lemma_dedup_len(cs, seen.push(cs[k].chromosome@), k + 1);
        assert(spec_dedup(cs, seen, k).1 == seq![k] + spec_dedup(
            cs,
            seen.push(cs[k].chromosome@),
            k + 1,
        ).1);
    }
}

} // verus!
