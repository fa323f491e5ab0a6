//! Genetic-operator tests: generation, crossover, mutation bounds.

use helix::darwin::crossover;
use helix::darwin::floor;
use helix::darwin::generate_pool;
use helix::darwin::mate;
use helix::darwin::mutate_base;
use helix::darwin::mutate_dna;
use helix::chromosome::Chromosome;
use helix::chromosome::Grammar;
use helix::config::default_tickers;
use helix::darwin::evolve;
use helix::dna::generate_dna;
use helix::dna::generate_dnas;
use helix::ratio::Ratio;

#[test]
fn test_generate() {
    let dna = generate_dna(12);
    assert_eq!(12, dna.len());
    for b in &dna {
        assert!(1 <= *b && *b <= 255);
    }
}

#[test]
fn test_generate_dnas() {
    let dnas = generate_dnas(12, 10000);
    assert_eq!(10000, dnas.len());
    assert_eq!(12, dnas[0].len())
}

#[test]
fn test_floor() {
    assert_eq!(1, floor(0));
    assert_eq!(1, floor(-5));
    assert_eq!(1, floor(1));
    assert_eq!(7, floor(7));
}

#[test]
fn test_mutate_base_never_below_one() {
    // the mutation of 1 lands on the clamp or one above it; larger
    // codons move exactly one step either way
    for _ in 0..200 {
        let m = mutate_base(1);
        assert!(m == 1 || m == 2);
        let m = mutate_base(100);
        assert!(m == 99 || m == 101);
    }
}

#[test]
fn test_mutate_dna_stays_near_input() {
    let dna = vec![1, 2, 3, 50, 255];
    for _ in 0..50 {
        let out = mutate_dna(dna.clone());
        assert_eq!(dna.len(), out.len());
        for (a, b) in dna.iter().zip(out.iter()) {
            assert!(*b >= 1);
            assert!((a - b).abs() <= 1);
        }
    }
}

#[test]
fn test_crossover() {
    let x = vec![1, 2, 3, 4];
    let y = vec![5, 6, 7, 8];
    assert_eq!(vec![1, 2, 7, 8], crossover(x.clone(), y.clone(), 2));
    assert_eq!(vec![5, 6, 7, 8], crossover(x.clone(), y.clone(), 0));
    assert_eq!(vec![1, 2, 3, 4], crossover(x, y, 4));
}

#[test]
fn test_generate_pool_rank_weighted() {
    let mut cs = Vec::new();
    for (rank, codon) in [(0, 10), (2, 20), (3, 30)] {
        cs.push(Chromosome {
            id: codon as u128,
            target_ticker: "t".to_string(),
            chromosome: "hhv:t:1".to_string(),
            dna: vec![codon; 12],
            generation: 1,
            chromosome_length: 1,
            kelly: Ratio::zero(),
            cum_pnl: 0,
            variance: Ratio::zero(),
            mean_return: Ratio::zero(),
            w_kelly: Ratio::zero(),
            num_of_trades: 0,
            winning_trades: 0,
            losing_trades: 0,
            percentage_winners: Ratio::zero(),
            rank,
        });
    }
    let pool = generate_pool(&cs, 0);
    // rank 0 contributes nothing, rank 2 twice, rank 3 three times
    assert_eq!(5, pool.len());
    assert_eq!(2, pool.iter().filter(|d| d[0] == 20).count());
    assert_eq!(3, pool.iter().filter(|d| d[0] == 30).count());
}

#[test]
fn test_evolve_breeds_a_full_population() {
    let grammar = Grammar {
        tickers: default_tickers(),
        strategies: vec!["hhv".to_string(), "llv".to_string()],
    };
    let mut ranked = Vec::new();
    for (i, rank) in [(1u128, 0), (2, 1), (3, 2)] {
        ranked.push(Chromosome {
            id: i,
            target_ticker: "krakenUSD".to_string(),
            chromosome: "hhv:btceUSD:8".to_string(),
            dna: vec![(i as i32) * 3 + 1; 12],
            generation: 1,
            chromosome_length: 1,
            kelly: Ratio::zero(),
            cum_pnl: 0,
            variance: Ratio::zero(),
            mean_return: Ratio::zero(),
            w_kelly: Ratio::zero(),
            num_of_trades: 0,
            winning_trades: 0,
            losing_trades: 0,
            percentage_winners: Ratio::zero(),
            rank,
        });
    }
    let next = evolve(ranked, 2, &grammar, "krakenUSD", 2, 25);
    assert_eq!(25, next.len());
    for c in &next {
        assert_eq!(12, c.dna.len());
        assert_eq!(2, c.generation);
        assert_eq!("krakenUSD", c.target_ticker);
        assert!(c.dna.iter().all(|b| *b >= 1));
        assert!(c.chromosome_length >= 1);
        assert_eq!(0, c.rank);
    }
}

#[test]
fn test_mate_offspring_derive_from_pool() {
    // a pool of one constant sequence: every splice is that sequence,
    // so each offspring codon sits within one step of it
    let pool = vec![vec![7; 12], vec![7; 12]];
    let out = mate(&pool, 40);
    assert_eq!(40, out.len());
    for o in &out {
        assert_eq!(12, o.len());
        assert!(o.iter().all(|b| (6..=8).contains(b)));
    }
}
