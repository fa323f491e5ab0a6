//! Evaluator and harness tests: signal replay, hard triggers,
//! fitness, ranking, and run-wide deduplication.

use helix::calc::kelly;
use helix::chromosome::Chromosome;
use helix::errors::RunError;
use helix::harness::process_chromosome;
use helix::harness::process_chromosomes;
use helix::harness::run_generation;
use helix::ranker::rank_chromosomes;
use helix::ratio::Ratio;
use helix::schemas::Quote;
use helix::schemas::QuotesRepo;
use helix::schemas::Return;
use helix::schemas::ReturnsTable;
use helix::trade_signal::SignalMap;
use helix::vger::calc_pnl;
use helix::vger::generate_signals;
use helix::vger::mean_return;
use helix::vger::merge_returns;
use helix::vger::update_chromosome;
use helix::vger::variance;

fn q(ts: u64, open: i64, high: i64, low: i64, close: i64, volume: i64) -> Quote {
    Quote { ts, open, high, low, close, volume }
}

fn candidate(text: &str, clause_count: i32, generation: i32) -> Chromosome {
    Chromosome {
        id: 11,
        target_ticker: "AAPL".to_string(),
        chromosome: text.to_string(),
        dna: vec![1, 2, 3, 4, 5, 6, 7, 8, 9, 10, 11, 12],
        generation,
        chromosome_length: clause_count,
        kelly: Ratio::zero(),
        cum_pnl: 0,
        variance: Ratio::zero(),
        mean_return: Ratio::zero(),
        w_kelly: Ratio::zero(),
        num_of_trades: 0,
        winning_trades: 0,
        losing_trades: 0,
        percentage_winners: Ratio::zero(),
        rank: 0,
    }
}

/// Six bars whose fourth closes far above the prior highs, so
/// `hhv:AAPL:3` fires exactly once, on the breakout bar.
fn breakout_history() -> Vec<Quote> {
    vec![
        q(1000, 11000, 11200, 9900, 9900, 100020),
        q(2000, 10000, 10500, 9900, 9900, 100080),
        q(3000, 10000, 10500, 9900, 9900, 99975),
        q(4000, 10000, 10500, 9900, 20000, 100050),
        q(5000, 10000, 21000, 9900, 9900, 100049),
        q(6000, 10000, 21000, 9900, 9900, 100079),
    ]
}

fn repo() -> QuotesRepo {
    let mut r = QuotesRepo::new();
    r.insert("AAPL".to_string(), breakout_history());
    r
}

fn rets() -> ReturnsTable {
    let mut t = ReturnsTable::new();
    t.insert(Return { ts: 4000, ret: 250_000 });
    t.insert(Return { ts: 5000, ret: -125_000 });
    t.insert(Return { ts: 6000, ret: 50_000 });
    t
}

#[test]
fn test_generate_signals_records_every_window() {
    let c = candidate("hhv:AAPL:3", 1, 1);
    let m = generate_signals(&c, &repo()).unwrap();
    // three windows over six bars with parameter 3
    assert_eq!(3, m.records.len());
    assert_eq!(4000, m.records[0].ts);
    assert_eq!(vec![1], m.records[0].signals);
    assert_eq!(vec![0], m.records[1].signals);
    assert_eq!(vec![0], m.records[2].signals);
    assert_eq!(vec!["hhv:AAPL:3".to_string()], m.records[0].strategies);
}

#[test]
fn test_generate_signals_missing_ticker_is_fatal() {
    let c = candidate("hhv:GONE:3", 1, 1);
    match generate_signals(&c, &repo()) {
        Err(RunError::MissingTicker) => {}
        other => panic!("expected a missing-ticker failure, got {:?}", other.is_ok()),
    }
}

#[test]
fn test_generate_signals_unknown_code_is_fatal() {
    let c = candidate("zzz:AAPL:3", 1, 1);
    match generate_signals(&c, &repo()) {
        Err(RunError::UnknownIndicator) => {}
        _ => panic!("expected an unknown-indicator failure"),
    }
}

#[test]
fn test_generate_signals_bad_clause_is_fatal() {
    let c = candidate("hhv:AAPL", 1, 1);
    match generate_signals(&c, &repo()) {
        Err(RunError::BadClause) => {}
        _ => panic!("expected a bad-clause failure"),
    }
}

#[test]
fn test_hard_trigger_needs_every_clause() {
    // two clauses: the breakout fires on the 4000 bar, the llv never
    // fires, so no bar reaches a hard trigger
    let c = candidate("hhv:AAPL:3::llv:AAPL:3", 2, 1);
    let mut m = generate_signals(&c, &repo()).unwrap();
    merge_returns(&mut m, &rets());
    calc_pnl(&mut m, &c);
    for rec in &m.records {
        assert_eq!(2, rec.signals.len());
        let sum: i32 = rec.signals.iter().sum();
        assert_eq!(rec.hard_signal == 1, sum == 2);
        assert_eq!(0, rec.hard_signal);
        assert_eq!(0, rec.pnl);
    }
}

#[test]
fn test_hard_trigger_fires_and_takes_the_return() {
    let c = candidate("hhv:AAPL:3", 1, 1);
    let mut m = generate_signals(&c, &repo()).unwrap();
    merge_returns(&mut m, &rets());
    calc_pnl(&mut m, &c);
    assert_eq!(1, m.records[0].hard_signal);
    assert_eq!(250_000, m.records[0].ret);
    assert_eq!(250_000, m.records[0].pnl);
    assert_eq!(0, m.records[1].hard_signal);
    assert_eq!(0, m.records[1].pnl);
}

#[test]
fn test_update_chromosome_fitness_fields() {
    let c = candidate("hhv:AAPL:3", 1, 1);
    let mut m = generate_signals(&c, &repo()).unwrap();
    merge_returns(&mut m, &rets());
    calc_pnl(&mut m, &c);
    let out = update_chromosome(c, m);
    assert_eq!(1, out.num_of_trades);
    assert_eq!(250_000, out.cum_pnl);
    assert_eq!(1, out.winning_trades);
    assert_eq!(0, out.losing_trades);
    assert_eq!(Ratio { num: 250_000, den: 1 }, out.mean_return);
    // a single trade has zero variance, so kelly stays zero
    assert_eq!(0, out.variance.num);
    assert_eq!(Ratio { num: 0, den: 1 }, out.kelly);
    assert_eq!(Ratio { num: 0, den: 1 }, out.w_kelly);
    assert_eq!(Ratio { num: 1, den: 1 }, out.percentage_winners);
}

#[test]
fn test_mean_and_variance_exact() {
    // four trades with pnl 6, 2, 3, 1 (millionths): mean 3, population
    // variance 3.5 as the exact rationals 12/4 and 224/64
    let c = candidate("hhv:AAPL:3", 1, 1);
    let mut m = SignalMap::new();
    let strategies = helix::strategies::expand_strategies(&c).unwrap();
    let st = &strategies[0];
    m.upsert(st, 10, 1);
    m.upsert(st, 20, 1);
    m.upsert(st, 30, 1);
    m.upsert(st, 40, 1);
    let pnls = [6i64, 2, 3, 1];
    for (rec, p) in m.records.iter_mut().zip(pnls.iter()) {
        rec.hard_signal = 1;
        rec.pnl = *p;
    }
    let signaled: Vec<_> = m.records.into_iter().collect();
    let mean = mean_return(&signaled);
    assert_eq!(Ratio { num: 12, den: 4 }, mean);
    let var = variance(&signaled);
    assert_eq!(Ratio { num: 224, den: 64 }, var);
    // kelly = mean / variance = 3 / 3.5
    let k = kelly(mean, var);
    assert_eq!(k.num * 7, k.den * 6);
}

#[test]
fn test_kelly_zero_on_zero_variance() {
    let k = kelly(Ratio { num: 5, den: 2 }, Ratio { num: 0, den: 1 });
    assert_eq!(0, k.num);
    let k = kelly(Ratio { num: 0, den: 1 }, Ratio { num: 0, den: 1 });
    assert_eq!(0, k.num);
}

#[test]
fn test_rank_zero_survivors_aborts() {
    // a generation whose survivors all fall at or under the trade
    // floor must abort rather than seed an empty pool
    let mut c = candidate("hhv:AAPL:3", 1, 1);
    c.num_of_trades = 100;
    match rank_chromosomes(vec![c], 100, 1) {
        Err(RunError::EmptyPopulation) => {}
        _ => panic!("expected the run to abort"),
    }
    match rank_chromosomes(Vec::new(), 100, 1) {
        Err(RunError::EmptyPopulation) => {}
        _ => panic!("expected the run to abort"),
    }
}

#[test]
fn test_rank_assignment_monotonic() {
    let mut cs = Vec::new();
    for (i, (wins, trades)) in [(10, 200), (150, 200), (80, 200), (199, 200)].iter().enumerate() {
        let mut c = candidate("hhv:AAPL:3", 1, 1);
        c.id = i as u128;
        c.num_of_trades = *trades;
        c.winning_trades = *wins;
        c.percentage_winners = Ratio { num: *wins as i128, den: *trades as i128 };
        cs.push(c);
    }
    let ranked = rank_chromosomes(cs, 100, 2).unwrap();
    assert_eq!(4, ranked.len());
    // ascending by win percentage: 10/200, 80/200, 150/200, 199/200
    assert_eq!(vec![10, 80, 150, 199], ranked.iter().map(|c| c.winning_trades).collect::<Vec<_>>());
    // only the elite band of two carries ranks, 1 then 2
    assert_eq!(vec![0, 0, 1, 2], ranked.iter().map(|c| c.rank).collect::<Vec<_>>());
}

#[test]
fn test_duplicate_program_is_not_reevaluated() {
    // the same decoded program text submitted again in a later
    // generation must be skipped and contribute no result
    let repo = repo();
    let table = rets();
    let mut cache: Vec<String> = Vec::new();
    let first = process_chromosomes(vec![candidate("hhv:AAPL:3", 1, 1)], &mut cache, &repo, &table)
        .unwrap();
    assert_eq!(1, first.len());
    assert_eq!(1, cache.len());
    let second = process_chromosomes(vec![candidate("hhv:AAPL:3", 1, 2)], &mut cache, &repo, &table)
        .unwrap();
    assert_eq!(0, second.len());
    assert_eq!(1, cache.len());
}

#[test]
fn test_duplicates_within_a_generation_collapse() {
    let repo = repo();
    let table = rets();
    let mut cache: Vec<String> = Vec::new();
    let results = process_chromosomes(
        vec![
            candidate("hhv:AAPL:3", 1, 1),
            candidate("hhv:AAPL:3", 1, 1),
            candidate("llv:AAPL:3", 1, 1),
        ],
        &mut cache,
        &repo,
        &table,
    )
    .unwrap();
    assert_eq!(2, results.len());
    assert_eq!(2, cache.len());
}

#[test]
fn test_process_chromosome_end_to_end() {
    let out = process_chromosome(candidate("hhv:AAPL:3", 1, 1), &repo(), &rets()).unwrap();
    assert_eq!(1, out.num_of_trades);
    assert_eq!(250_000, out.cum_pnl);
}

#[test]
fn test_run_generation_ranks_or_aborts() {
    let repo = repo();
    let table = rets();
    let mut cache: Vec<String> = Vec::new();
    // one trade per candidate never clears a floor of 0 trades with
    // fittest 1 unless the floor admits it
    let candidates = vec![candidate("hhv:AAPL:3", 1, 1), candidate("llv:AAPL:3", 1, 1)];
    let ranked = run_generation(candidates, &mut cache, &repo, &table, 0, 1).unwrap();
    assert_eq!(1, ranked.len());
    assert_eq!(1, ranked[0].rank);
    // with a floor nothing clears, the generation aborts
    let mut cache2: Vec<String> = Vec::new();
    let candidates = vec![candidate("hhv:AAPL:3", 1, 1)];
    match run_generation(candidates, &mut cache2, &repo, &table, 100, 1) {
        Err(helix::errors::RunError::EmptyPopulation) => {}
        _ => panic!("expected the generation to abort"),
    }
}
