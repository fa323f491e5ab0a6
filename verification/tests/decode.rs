//! Decoder tests: modulus indexing and the regression fixtures.

use helix::chromosome::decode_dna;
use helix::chromosome::generate_chromosomes;
use helix::chromosome::grammar_ok;
use helix::chromosome::Grammar;
use helix::config::default_tickers;
use helix::config::statements_length;
use helix::config::strategies_length;

fn codes(list: &[&str]) -> Vec<String> {
    list.iter().map(|c| c.to_string()).collect()
}

fn ten_strategy_grammar() -> Grammar {
    Grammar {
        tickers: default_tickers(),
        strategies: codes(&[
            "conupdays",
            "condowndays",
            "hhv",
            "llv",
            "abovema",
            "belowma",
            "stdeva",
            "stdevb",
            "stdevd",
            "stdevf",
        ]),
    }
}

fn three_strategy_grammar() -> Grammar {
    Grammar { tickers: default_tickers(), strategies: codes(&["hhv", "llv", "conupdays"]) }
}

#[test]
fn test_modulo() {
    let x = 11 % 4;
    assert_eq!(3, x);
    let y = 12 % 4;
    assert_eq!(0, y)
}

#[test]
fn chromosome_test_modulo() {
    let x = 11 % 4;
    assert_eq!(3, x);
    let y = 12 % 4;
    assert_eq!(0, y)
}

#[test]
fn test_decode_dna() {
    let dna = vec![241, 252, 253, 8, 13, 118, 184, 1, 225, 54, 141, 95];
    let grammar = ten_strategy_grammar();
    assert!(grammar_ok(&grammar));
    let chromosome = decode_dna("<code>".to_string(), &dna, &grammar);
    assert_eq!(
        "hhv:btceUSD:8::stdevd:bitstampUSD:1::abovema:krakenEUR:95",
        chromosome
    );
}

#[test]
fn chromosome_test_decode_dna() {
    let dna = vec![241, 252, 253, 8, 13, 118, 184, 1, 225, 54, 141, 95];
    let grammar = three_strategy_grammar();
    assert!(grammar_ok(&grammar));
    let chromosome = decode_dna("<code>".to_string(), &dna, &grammar);
    assert_eq!(
        "hhv:btceUSD:8::llv:bitstampUSD:1::hhv:krakenEUR:95",
        chromosome
    );
}

#[test]
fn test_decode_deterministic() {
    let dna = vec![241, 252, 253, 8, 13, 118, 184, 1, 225, 54, 141, 95];
    let grammar = ten_strategy_grammar();
    let first = decode_dna("<code>".to_string(), &dna, &grammar);
    let second = decode_dna("<code>".to_string(), &dna, &grammar);
    assert_eq!(first, second);
}

#[test]
fn test_decode_unfinished_placeholders() {
    // codons run out right after a statement selection: the literal
    // placeholders stay in the text, and a dangling `::<code>` is
    // stripped
    let grammar = ten_strategy_grammar();
    assert_eq!("<code>", decode_dna("<code>".to_string(), &vec![], &grammar));
    assert_eq!("<stmnt>", decode_dna("<code>".to_string(), &vec![1], &grammar));
    assert_eq!(
        "hhv:<ticker>:<param>",
        decode_dna("<code>".to_string(), &vec![1, 2], &grammar)
    );
}

#[test]
fn test_clause_count_matches_selections() {
    let dna = vec![241, 252, 253, 8, 13, 118, 184, 1, 225, 54, 141, 95];
    let grammar = ten_strategy_grammar();
    let out = generate_chromosomes(vec![dna.clone()], 1, "krakenUSD", &grammar);
    assert_eq!(1, out.len());
    assert_eq!(3, out[0].chromosome_length);
    assert_eq!(dna, out[0].dna);
    assert_eq!(1, out[0].generation);
    assert_eq!("krakenUSD", out[0].target_ticker);
    assert_eq!(0, out[0].rank);
}

#[test]
fn test_table_lengths() {
    assert_eq!(10, strategies_length());
    assert_eq!(2, statements_length());
}

#[test]
fn test_grammar_ok_refuses_punctuated_entries() {
    let grammar = Grammar {
        tickers: vec!["a:b".to_string()],
        strategies: vec!["hhv".to_string()],
    };
    assert!(!grammar_ok(&grammar));
    let grammar = Grammar { tickers: vec![], strategies: vec!["hhv".to_string()] };
    assert!(!grammar_ok(&grammar));
    let grammar = Grammar {
        tickers: vec!["btceUSD".to_string()],
        strategies: vec!["".to_string()],
    };
    assert!(!grammar_ok(&grammar));
}
