//! Indicator and window tests, on fixed-point prices (hundredths).

use helix::chromosome::Chromosome;
use helix::ratio::Ratio;
use helix::schemas::Quote;
use helix::strategies::above_ma::above_ma;
use helix::strategies::below_ma::below_ma;
use helix::strategies::con_down_days::con_down_days;
use helix::strategies::con_up_days::con_up_days;
use helix::strategies::expand_strategy;
use helix::strategies::gap_down_days::gap_down_days;
use helix::strategies::gap_up_days::gap_up_days;
use helix::strategies::highest_high_value::highest_high_value;
use helix::strategies::lowest_low_value::lowest_low_value;
use helix::strategies::stddev_a;
use helix::strategies::stddev_b;
use helix::strategies::stddev_d;
use helix::strategies::stddev_f;
use helix::window::diff;
use helix::window::flatten_window;
use helix::window::make_window;
use helix::window::Window;

fn q(ts: u64, open: i64, high: i64, low: i64, close: i64, volume: i64) -> Quote {
    Quote { ts, open, high, low, close, volume }
}

fn zero_fitness_chromosome(text: &str) -> Chromosome {
    Chromosome {
        id: 7,
        target_ticker: "xlf".to_string(),
        chromosome: text.to_string(),
        dna: vec![1, 2, 3, 4, 5, 6, 7, 8, 9, 10, 11, 12],
        generation: 1,
        chromosome_length: 2,
        kelly: Ratio::zero(),
        cum_pnl: 0,
        variance: Ratio::zero(),
        mean_return: Ratio::zero(),
        w_kelly: Ratio::zero(),
        num_of_trades: 0,
        winning_trades: 0,
        losing_trades: 0,
        percentage_winners: Ratio::zero(),
        rank: 0,
    }
}

#[test]
fn test_expand_strategy() {
    let chromosome = zero_fitness_chromosome("llv:krakenUSD:2::hhv:coinbaseUSD:3");
    let actual = expand_strategy(&chromosome, "llv:krakenUSD:2".to_string()).unwrap();
    assert_eq!("llv", actual.code);
    assert_eq!("krakenUSD", actual.ticker);
    assert_eq!(2, actual.param);
    assert_eq!("llv:krakenUSD:2", actual.strategy);
    assert_eq!("xlf", actual.target_ticker);
    assert_eq!(1, actual.generation);
}

#[test]
fn test_window() {
    let test_vec = vec![
        q(1528745804, 10000, 10500, 9900, 9900, 100020),
        q(1528746805, 10000, 10500, 9900, 9900, 100080),
        q(1528747806, 10000, 10500, 9900, 9900, 99975),
        q(1528748807, 10000, 10500, 9900, 9900, 100050),
        q(1528749808, 10000, 10500, 9900, 9900, 100049),
        q(1528750809, 10000, 10500, 9900, 9900, 100079),
    ];
    let windows = make_window(&test_vec, 3);
    let first_window = &windows[0];
    assert_eq!(first_window.window[0].ts, 1528745804);
    assert_eq!(first_window.current_quote.ts, 1528748807);
}

#[test]
fn test_flatten_window() {
    let w = Window {
        window: vec![
            q(1528745804, 10000, 10500, 9900, 9900, 100020),
            q(1528746805, 10000, 10500, 9900, 9900, 100080),
            q(1528747806, 10000, 10500, 9900, 9900, 99975),
        ],
        current_quote: q(1528748807, 10000, 10500, 9900, 9900, 100050),
    };
    let f_window = flatten_window(&w);
    assert_eq!(1528745804, f_window[0].ts);
    assert_eq!(1528746805, f_window[1].ts);
    assert_eq!(1528747806, f_window[2].ts);
    assert_eq!(1528748807, f_window[3].ts);
}

#[test]
fn test_diff() {
    let test_vec = vec![
        q(1528745804, 10000, 10500, 9900, 10000, 100020),
        q(1528746805, 10000, 10500, 9900, 9900, 100080),
        q(1528747806, 10000, 10500, 9900, 10200, 99975),
        q(1528748807, 10000, 10500, 9900, 10400, 100050),
        q(1528749808, 10000, 10500, 9900, 11000, 100049),
        q(1528750809, 10000, 10500, 9900, 9900, 100079),
    ];
    let result = diff(&test_vec, 1);
    assert_eq!(result[0], -100);
    assert_eq!(result[1], 300);
    assert_eq!(result[2], 200);
    assert_eq!(result[3], 600);
    assert_eq!(result[4], -1100);
}

#[test]
fn test_hhv() {
    let test_vec = vec![
        q(1528745804, 11000, 11200, 9900, 9900, 100020),
        q(1528746804, 10000, 10500, 9900, 9900, 100080),
        q(1528747804, 10000, 10500, 9900, 9900, 99975),
        q(1528748804, 10000, 10500, 9900, 20000, 100050),
        q(1528749804, 10000, 10500, 9900, 9900, 100049),
        q(1528750804, 10000, 10500, 9900, 9900, 100079),
    ];
    let windows = make_window(&test_vec, 3);
    let signal = highest_high_value(&windows[0]);
    assert_eq!(1, signal);
}

#[test]
fn test_hhv_quiet_windows() {
    // windows whose current close stays under the prior highs yield
    // no breakout signal
    let test_vec = vec![
        q(1528745804, 11000, 11200, 9900, 9900, 100020),
        q(1528746804, 10000, 10500, 9900, 9900, 100080),
        q(1528747804, 10000, 10500, 9900, 9900, 99975),
        q(1528748804, 10000, 10500, 9900, 20000, 100050),
        q(1528749804, 10000, 10500, 9900, 9900, 100049),
        q(1528750804, 10000, 10500, 9900, 9900, 100079),
    ];
    let windows = make_window(&test_vec, 3);
    assert_eq!(0, highest_high_value(&windows[1]));
    assert_eq!(0, highest_high_value(&windows[2]));
}

#[test]
fn test_llv() {
    let test_vec = vec![
        q(1528745804, 11000, 11200, 9900, 9900, 100020),
        q(1528746804, 10000, 10500, 9900, 9900, 100080),
        q(1528747804, 10000, 10500, 9900, 9900, 99975),
        q(1528748804, 10000, 10500, 9900, 20000, 100050),
        q(1528749804, 10000, 10500, 9900, 9900, 100049),
        q(1528750804, 10000, 10500, 9900, 9900, 100079),
    ];
    let windows = make_window(&test_vec, 3);
    let signal = lowest_low_value(&windows[0]);
    assert_eq!(0, signal);
}

#[test]
fn test_above_ma() {
    let test_vec = vec![
        q(1528745804, 10000, 10500, 9900, 9900, 100020),
        q(1528746805, 10000, 10500, 9900, 9900, 100080),
        q(1528747806, 10000, 10500, 9900, 10100, 99975),
        q(1528748807, 10000, 10500, 9900, 10200, 100050),
        q(1528749808, 10000, 10500, 9900, 10000, 100049),
        q(1528750809, 10000, 10500, 9900, 9900, 100079),
    ];
    let windows = make_window(&test_vec, 3);
    assert_eq!(1, above_ma(&windows[0]));
    assert_eq!(0, above_ma(&windows[1]));
}

#[test]
fn test_below_ma() {
    let test_vec = vec![
        q(1528745804, 10000, 10500, 9900, 9900, 100020),
        q(1528746805, 10000, 10500, 9900, 9900, 100080),
        q(1528747806, 10000, 10500, 9900, 10100, 99975),
        q(1528748807, 10000, 10500, 9900, 10200, 100050),
        q(1528749808, 10000, 10500, 9900, 10000, 100049),
        q(1528750809, 10000, 10500, 9900, 9900, 100079),
    ];
    let windows = make_window(&test_vec, 3);
    assert_eq!(0, below_ma(&windows[0]));
    assert_eq!(1, below_ma(&windows[1]));
}

#[test]
fn test_conupdays() {
    let test_vec = vec![
        q(1528745804, 10000, 10500, 9900, 9900, 100020),
        q(1528746805, 10000, 10500, 9900, 9900, 100080),
        q(1528747806, 10000, 10500, 9900, 10100, 99975),
        q(1528748807, 10000, 10500, 9900, 10200, 100050),
        q(1528749808, 10000, 10500, 9900, 10300, 100049),
        q(1528750809, 10000, 10500, 9900, 9900, 100079),
    ];
    let windows = make_window(&test_vec, 3);
    assert_eq!(0, con_up_days(&windows[0], 3));
    assert_eq!(1, con_up_days(&windows[1], 3));
}

#[test]
fn test_condowndays() {
    let test_vec = vec![
        q(1528745804, 10000, 10500, 9900, 9900, 100020),
        q(1528746805, 10000, 10500, 9900, 9900, 100080),
        q(1528747806, 10000, 10500, 9900, 9800, 99975),
        q(1528748807, 10000, 10500, 9900, 9700, 100050),
        q(1528749808, 10000, 10500, 9900, 9600, 100049),
        q(1528750809, 10000, 10500, 9900, 9900, 100079),
    ];
    let windows = make_window(&test_vec, 3);
    assert_eq!(0, con_down_days(&windows[0], 3));
    assert_eq!(1, con_down_days(&windows[1], 3));
}

#[test]
fn test_gapupdays() {
    let test_vec = vec![
        q(1528745804, 10000, 10500, 9900, 9900, 100020),
        q(1528746805, 9900, 10500, 9900, 9900, 100080),
        q(1528747806, 10000, 10500, 9900, 10100, 99975),
        q(1528748807, 10200, 10500, 9900, 10200, 100050),
        q(1528749808, 10300, 10500, 9900, 10300, 100049),
        q(1528750809, 10000, 10500, 9900, 9900, 100079),
    ];
    let windows = make_window(&test_vec, 3);
    assert_eq!(0, gap_up_days(&windows[0], 3));
    assert_eq!(1, gap_up_days(&windows[1], 3));
}

#[test]
fn test_gapdowndays() {
    let test_vec = vec![
        q(1528745804, 10000, 10500, 9900, 9900, 100020),
        q(1528746805, 9900, 10500, 9900, 9900, 100080),
        q(1528747806, 9800, 10500, 9900, 10100, 99975),
        q(1528748807, 10000, 10500, 9900, 10200, 100050),
        q(1528749808, 10100, 10500, 9900, 10300, 100049),
        q(1528750809, 10500, 10500, 9900, 9900, 100079),
    ];
    let windows = make_window(&test_vec, 3);
    assert_eq!(0, gap_down_days(&windows[0], 3));
    assert_eq!(1, gap_down_days(&windows[1], 3));
}

#[test]
fn test_std_dev_a() {
    let test_vec = vec![
        q(1528745804, 10000, 10500, 9900, 9900, 100020),
        q(1528746805, 10000, 10500, 9900, 9900, 100080),
        q(1528747806, 10000, 10500, 9900, 10100, 99975),
        q(1528748807, 10000, 10500, 9900, 10200, 100050),
        q(1528749808, 10000, 10500, 9900, 10300, 100049),
        q(1528750809, 10000, 10500, 9900, 9900, 100079),
    ];
    let windows = make_window(&test_vec, 3);
    assert_eq!(0, stddev_a::generator(&windows[0]));
    assert_eq!(1, stddev_a::generator(&windows[1]));
    assert_eq!(0, stddev_a::generator(&windows[2]));
}

#[test]
fn test_std_dev_b() {
    let test_vec = vec![
        q(1528745804, 10000, 10500, 9900, 9900, 100020),
        q(1528746805, 10000, 10500, 9900, 9900, 100080),
        q(1528747806, 10000, 10500, 9900, 10100, 99975),
        q(1528748807, 10000, 10500, 9900, 10200, 100050),
        q(1528749808, 10000, 10500, 9900, 10400, 100049),
        q(1528750809, 10000, 10500, 9900, 10425, 100079),
    ];
    let windows = make_window(&test_vec, 3);
    assert_eq!(1, stddev_b::generator(&windows[0]));
    assert_eq!(0, stddev_b::generator(&windows[1]));
    assert_eq!(0, stddev_b::generator(&windows[2]));
}

#[test]
fn test_std_dev_d() {
    let test_vec = vec![
        q(1528745804, 10000, 10500, 9900, 9900, 100020),
        q(1528746805, 10000, 10500, 9900, 9900, 100080),
        q(1528747806, 10000, 10500, 9900, 10100, 99975),
        q(1528748807, 10000, 10500, 9900, 10000, 100050),
        q(1528749808, 10000, 10500, 9900, 9600, 100049),
        q(1528750809, 10000, 10500, 9900, 9500, 100079),
    ];
    let windows = make_window(&test_vec, 3);
    assert_eq!(1, stddev_d::generator(&windows[0]));
    assert_eq!(0, stddev_d::generator(&windows[1]));
    assert_eq!(0, stddev_d::generator(&windows[2]));
}

#[test]
fn test_std_dev_f() {
    let test_vec = vec![
        q(1528745804, 10000, 10500, 9900, 9900, 100020),
        q(1528746805, 10000, 10500, 9900, 9900, 100080),
        q(1528747806, 10000, 10500, 9900, 10100, 99975),
        q(1528748807, 10000, 10500, 9900, 9900, 100050),
        q(1528749808, 10000, 10500, 9900, 9400, 100049),
        q(1528750809, 10000, 10500, 9900, 9300, 100079),
    ];
    let windows = make_window(&test_vec, 3);
    assert_eq!(1, stddev_f::generator(&windows[0]));
    assert_eq!(1, stddev_f::generator(&windows[1]));
    assert_eq!(0, stddev_f::generator(&windows[2]));
}

fn sigma_window() -> Window {
    // close differences within the window are [600, 200, 300, 100]:
    // population standard deviation 187.08287 (1.8708287 in whole
    // units), so sigma bands sit at 187.08 and 374.17
    Window {
        window: vec![
            q(1528745804, 10000, 11500, 9900, 10000, 100020),
            q(1528746805, 10000, 11500, 9900, 10600, 100080),
            q(1528747806, 10000, 11500, 9900, 10800, 99975),
            q(1528748807, 10000, 11500, 9900, 11100, 100050),
            q(1528749808, 10000, 11500, 9900, 11200, 100049),
        ],
        current_quote: q(1528750809, 10000, 11500, 9900, 11200, 100079),
    }
}

fn with_current_close(mut w: Window, close: i64) -> Window {
    w.current_quote.close = close;
    w
}

#[test]
fn test_sigma_band_a() {
    // d >= 2*sigma fires exactly from 375 on (2*sigma = 374.16574)
    assert_eq!(1, stddev_a::generator(&with_current_close(sigma_window(), 11200 + 375)));
    assert_eq!(0, stddev_a::generator(&with_current_close(sigma_window(), 11200 + 374)));
    assert_eq!(0, stddev_a::generator(&with_current_close(sigma_window(), 11200 + 188)));
}

#[test]
fn test_sigma_band_b() {
    // sigma <= d < 2*sigma fires exactly for d in [188, 374]
    assert_eq!(1, stddev_b::generator(&with_current_close(sigma_window(), 11200 + 188)));
    assert_eq!(1, stddev_b::generator(&with_current_close(sigma_window(), 11200 + 374)));
    assert_eq!(0, stddev_b::generator(&with_current_close(sigma_window(), 11200 + 187)));
    assert_eq!(0, stddev_b::generator(&with_current_close(sigma_window(), 11200 + 375)));
}

#[test]
fn test_sigma_band_d() {
    // -2*sigma < d <= -sigma fires exactly for d in [-374, -188]
    assert_eq!(1, stddev_d::generator(&with_current_close(sigma_window(), 11200 - 188)));
    assert_eq!(1, stddev_d::generator(&with_current_close(sigma_window(), 11200 - 374)));
    assert_eq!(0, stddev_d::generator(&with_current_close(sigma_window(), 11200 - 187)));
    assert_eq!(0, stddev_d::generator(&with_current_close(sigma_window(), 11200 - 375)));
}

#[test]
fn test_sigma_band_f() {
    // d <= -2*sigma fires exactly from -375 down
    assert_eq!(1, stddev_f::generator(&with_current_close(sigma_window(), 11200 - 375)));
    assert_eq!(0, stddev_f::generator(&with_current_close(sigma_window(), 11200 - 374)));
}
