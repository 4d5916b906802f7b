use std::collections::VecDeque;

use capital_gains::{
    match_sell, partition, sort_by_time, Calculator, CalculatorType, Currency, CurrencyGain,
    FifoCalculator, GainsError, Transaction, TransactionType, AMOUNT_SCALE, RATE_SCALE,
};

const UNIT: u64 = AMOUNT_SCALE;

fn home(units: i128) -> i128 {
    units * (AMOUNT_SCALE as i128) * (RATE_SCALE as i128)
}

fn tx(amount: u64, currency: &str, rate: u64, kind: TransactionType, unixtime: u64) -> Transaction {
    Transaction::new(amount, Currency(currency.to_string()), rate * RATE_SCALE, kind, unixtime)
}

fn buy(amount: u64, currency: &str, rate: u64, unixtime: u64) -> Transaction {
    tx(amount, currency, rate, TransactionType::Buy, unixtime)
}

fn sell(amount: u64, currency: &str, rate: u64, unixtime: u64) -> Transaction {
    tx(amount, currency, rate, TransactionType::Sell, unixtime)
}

fn gains(transactions: Vec<Transaction>) -> Result<Vec<CurrencyGain>, GainsError> {
    CalculatorType::Fifo.get_calculator().calculate_capital_gains(transactions)
}

fn gain_of(result: &[CurrencyGain], currency: &str) -> Option<i128> {
    result.iter().find(|g| g.currency.0 == currency).map(|g| g.gain)
}

#[test]
fn full_match_single_lot() {
    let result = gains(vec![buy(UNIT, "BTC", 10000, 1), sell(UNIT, "BTC", 15000, 2)]).unwrap();
    assert_eq!(result.len(), 1);
    assert_eq!(gain_of(&result, "BTC"), Some(home(5000)));

    let mut lots = VecDeque::new();
    lots.push_back(buy(UNIT, "BTC", 10000, 1));
    let g = match_sell(&mut lots, sell(UNIT, "BTC", 15000, 2), 0).unwrap();
    assert_eq!(g, home(5000));
    assert!(lots.is_empty());
}

#[test]
fn multi_lot_consumption() {
    let result = gains(vec![
        buy(UNIT, "ETH", 10000, 1),
        buy(UNIT, "ETH", 20000, 2),
        sell(UNIT + UNIT / 2, "ETH", 30000, 3),
    ])
    .unwrap();
    assert_eq!(gain_of(&result, "ETH"), Some(home(25000)));

    let mut lots = VecDeque::new();
    lots.push_back(buy(UNIT, "ETH", 10000, 1));
    lots.push_back(buy(UNIT, "ETH", 20000, 2));
    let g = match_sell(&mut lots, sell(UNIT + UNIT / 2, "ETH", 30000, 3), 0).unwrap();
    assert_eq!(g, home(25000));
    assert_eq!(lots.len(), 1);
    assert_eq!(lots[0].amount, UNIT / 2);
    assert_eq!(lots[0].unixtime, 2);
}

#[test]
fn insufficient_lots() {
    match gains(vec![sell(UNIT, "XRP", 1, 5)]) {
        Err(GainsError::InsufficientLots { currency, unixtime, remaining }) => {
            assert_eq!(currency.0, "XRP");
            assert_eq!(unixtime, 5);
            assert_eq!(remaining, UNIT);
        }
        other => panic!("expected InsufficientLots, got {:?}", other),
    }
}

#[test]
fn insufficient_lots_after_partial_match() {
    match gains(vec![buy(UNIT, "XRP", 1, 1), sell(3 * UNIT, "XRP", 2, 2)]) {
        Err(GainsError::InsufficientLots { remaining, .. }) => assert_eq!(remaining, 2 * UNIT),
        other => panic!("expected InsufficientLots, got {:?}", other),
    }
}

#[test]
fn unrealized_residual() {
    let result = gains(vec![buy(2 * UNIT, "LTC", 100, 1), sell(UNIT, "LTC", 150, 2)]).unwrap();
    assert_eq!(gain_of(&result, "LTC"), Some(home(50)));

    let mut lots = VecDeque::new();
    lots.push_back(buy(2 * UNIT, "LTC", 100, 1));
    match_sell(&mut lots, sell(UNIT, "LTC", 150, 2), 0).unwrap();
    assert_eq!(lots.len(), 1);
    assert_eq!(lots[0].amount, UNIT);
}

#[test]
fn currency_independence() {
    let alone = gains(vec![buy(UNIT, "B", 10, 2), sell(UNIT, "B", 30, 4)]).unwrap();
    let mixed = gains(vec![
        buy(UNIT, "A", 100, 1),
        buy(UNIT, "B", 10, 2),
        sell(UNIT / 2, "A", 50, 3),
        sell(UNIT, "B", 30, 4),
        sell(UNIT / 2, "A", 400, 5),
    ])
    .unwrap();
    assert_eq!(gain_of(&alone, "B"), Some(home(20)));
    assert_eq!(gain_of(&mixed, "B"), gain_of(&alone, "B"));
    assert_eq!(gain_of(&mixed, "A"), Some(home(-25 + 150)));
    assert_eq!(mixed.len(), 2);
}

#[test]
fn failing_currency_aborts_the_run() {
    let result = gains(vec![buy(UNIT, "A", 1, 1), sell(UNIT, "A", 2, 2), sell(UNIT, "B", 2, 3)]);
    assert!(matches!(result, Err(GainsError::InsufficientLots { .. })));
}

#[test]
fn epsilon_exhaustion() {
    // 1.0 - 0.999995 leaves 0.000005, under the threshold of 0.00001
    let mut lots = VecDeque::new();
    lots.push_back(buy(UNIT, "DOT", 10, 1));
    match_sell(&mut lots, sell(UNIT - 500, "DOT", 10, 2), 0).unwrap();
    assert!(lots.is_empty());

    let result = gains(vec![
        buy(UNIT, "DOT", 10, 1),
        sell(UNIT - 500, "DOT", 10, 2),
        sell(UNIT / 2, "DOT", 10, 3),
    ]);
    assert!(matches!(result, Err(GainsError::InsufficientLots { .. })));
}

#[test]
fn sell_below_threshold_is_nothing() {
    let result = gains(vec![sell(999, "DOT", 10, 1)]).unwrap();
    assert_eq!(gain_of(&result, "DOT"), Some(0));
}

#[test]
fn lot_just_above_threshold_stays() {
    let mut lots = VecDeque::new();
    lots.push_back(buy(UNIT, "DOT", 10, 1));
    match_sell(&mut lots, sell(UNIT - 1000, "DOT", 10, 2), 0).unwrap();
    assert_eq!(lots.len(), 1);
    assert_eq!(lots[0].amount, 1000);
}

#[test]
fn deterministic_on_repeated_runs() {
    let input = vec![
        buy(UNIT, "A", 100, 3),
        sell(UNIT / 4, "A", 120, 4),
        buy(2 * UNIT, "B", 7, 1),
        sell(UNIT, "B", 9, 2),
    ];
    let first = gains(input.clone()).unwrap();
    let second = gains(input.clone()).unwrap();
    assert_eq!(first.len(), second.len());
    for (x, y) in first.iter().zip(second.iter()) {
        assert_eq!(x.currency, y.currency);
        assert_eq!(x.gain, y.gain);
    }
    assert_eq!(input[1].amount, UNIT / 4);
}

#[test]
fn unsorted_input_is_matched_in_time_order() {
    let result = gains(vec![sell(UNIT, "BTC", 15000, 2), buy(UNIT, "BTC", 10000, 1)]).unwrap();
    assert_eq!(gain_of(&result, "BTC"), Some(home(5000)));
}

#[test]
fn results_in_order_of_first_transaction() {
    let result = gains(vec![buy(UNIT, "Z", 1, 5), buy(UNIT, "Y", 1, 2), buy(UNIT, "X", 1, 9)]).unwrap();
    let names: Vec<&str> = result.iter().map(|g| g.currency.0.as_str()).collect();
    assert_eq!(names, vec!["Y", "Z", "X"]);
    assert!(result.iter().all(|g| g.gain == 0));
}

#[test]
fn sort_is_stable() {
    let sorted = sort_by_time(vec![
        buy(1, "A", 1, 5),
        buy(2, "A", 1, 3),
        buy(3, "A", 1, 5),
        buy(4, "A", 1, 1),
        buy(5, "A", 1, 3),
    ]);
    let amounts: Vec<u64> = sorted.iter().map(|t| t.amount).collect();
    assert_eq!(amounts, vec![4, 2, 5, 1, 3]);
}

#[test]
fn equal_times_keep_input_order() {
    // the sell comes first among equal times, so no lot is open for it
    let result = gains(vec![sell(UNIT, "A", 2, 1), buy(UNIT, "A", 1, 1)]);
    assert!(matches!(result, Err(GainsError::InsufficientLots { .. })));
    let result = gains(vec![buy(UNIT, "A", 1, 1), sell(UNIT, "A", 2, 1)]).unwrap();
    assert_eq!(gain_of(&result, "A"), Some(home(1)));
}

#[test]
fn partition_keeps_one_currency_in_order() {
    let all = vec![buy(1, "A", 1, 1), buy(2, "B", 1, 2), buy(3, "A", 1, 3)];
    let part = partition(&all, &Currency("A".to_string()));
    let amounts: Vec<u64> = part.iter().map(|t| t.amount).collect();
    assert_eq!(amounts, vec![1, 3]);
    assert!(partition(&all, &Currency("C".to_string())).is_empty());
}

#[test]
fn single_currency_gain() {
    let calc = FifoCalculator {};
    let g = calc
        .calculate_capital_gains_single_currency(vec![
            buy(UNIT, "A", 10, 1),
            sell(UNIT / 2, "A", 4, 2),
            sell(UNIT / 2, "A", 30, 3),
        ])
        .unwrap();
    assert_eq!(g, home(-3) + home(10));
    assert_eq!(calc.calculate_capital_gains_single_currency(vec![]).unwrap(), 0);
}

#[test]
fn empty_input_gives_no_gains() {
    assert!(gains(vec![]).unwrap().is_empty());
}

#[test]
fn subtract_sell_reduces_both() {
    let mut b = buy(3 * UNIT, "A", 10, 1);
    let mut s = sell(UNIT, "A", 12, 2);
    assert_eq!(b.subtract_sell(&mut s), Some(home(2)));
    assert_eq!(b.amount, 2 * UNIT);
    assert_eq!(s.amount, 0);
    assert!(s.is_exhausted());
    assert!(!b.is_exhausted());

    let mut b = buy(UNIT, "A", 10, 1);
    let mut s = sell(3 * UNIT, "A", 4, 2);
    assert_eq!(b.subtract_sell(&mut s), Some(home(-6)));
    assert_eq!(b.amount, 0);
    assert_eq!(s.amount, 2 * UNIT);
}

#[test]
fn subtract_sell_reports_unrepresentable_gain() {
    let mut b = Transaction::new(u64::MAX, Currency("A".to_string()), 0, TransactionType::Buy, 1);
    let mut s = Transaction::new(u64::MAX, Currency("A".to_string()), u64::MAX, TransactionType::Sell, 2);
    assert_eq!(b.subtract_sell(&mut s), None);
    assert_eq!(b.amount, 0);
    assert_eq!(s.amount, 0);
}

#[test]
fn gain_overflow_is_an_error() {
    let big = Transaction::new(u64::MAX, Currency("A".to_string()), 0, TransactionType::Buy, 1);
    let out = Transaction::new(u64::MAX, Currency("A".to_string()), u64::MAX, TransactionType::Sell, 2);
    match gains(vec![big, out]) {
        Err(GainsError::GainOverflow { currency, unixtime }) => {
            assert_eq!(currency.0, "A");
            assert_eq!(unixtime, 2);
        }
        other => panic!("expected GainOverflow, got {:?}", other),
    }
}
