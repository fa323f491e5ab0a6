//! Brace-list formatting tests.

use helix::writer::fmt_vec_dna;
use helix::writer::fmt_vec_string;

#[test]
fn test_fmt_vec_string() {
    let t = vec!["A".to_string(), "B".to_string(), "C".to_string()];
    assert_eq!("\"{A,B,C}\"", fmt_vec_string(t))
}

#[test]
fn write_signals_test_fmt_vec_string() {
    let t = vec!["A".to_string(), "B".to_string(), "C".to_string()];
    assert_eq!("\"{A,B,C}\"", fmt_vec_string(t))
}

#[test]
fn mod_test_fmt_vec_string() {
    let t = vec!["A".to_string(), "B".to_string(), "C".to_string()];
    assert_eq!("\"{A,B,C}\"", fmt_vec_string(t))
}

#[test]
fn test_fmt_vec_dna() {
    let t: Vec<i32> = vec![1, 2, 3, 4, 5, 6, 7, 8, 9, 10, 11, 12];
    assert_eq!("\"{1,2,3,4,5,6,7,8,9,10,11,12}\"", fmt_vec_dna(t))
}

#[test]
fn test_sql_text_nonempty() {
    assert!(helix::sql::get_quotes_by_symbol().contains("av_quotes"));
    assert!(helix::sql::get_returns().contains("ret IS NOT NULL"));
    assert!(helix::sql::get_tickers().contains("GROUP BY ticker"));
    assert!(helix::sql::insert_chromosome().contains("trade_chromosomes"));
    assert!(helix::repo_sql::get_quotes_by_symbol::sql().contains("btcc.hourly"));
    assert!(helix::repo_sql::get_returns::sql().contains("btcc.hourly"));
    assert!(helix::repo_sql::insert_chromosome::sql().contains("trade_chromosomes"));
    assert!(helix::sql::init_trade_signals().contains("CREATE TABLE trade_signals"));
    assert!(helix::sql::init_chromosomes().contains("CREATE TABLE trade_chromosomes"));
    assert_eq!(
        "COPY trade_chromosomes FROM '/tmp/chromosomes.txt';",
        helix::sql::copy_chromosomes()
    );
    assert_eq!(
        "COPY trade_signals FROM '/tmp/ch_11.txt';",
        helix::sql::copy_trade_signals("/tmp/ch_11.txt")
    );
}
