use capital_gains::decimal::{parse_amount, parse_decimal};
use capital_gains::reader::parse_rate;
use capital_gains::{
    CoinjarReader, Currency, Row, RowError, TransactionType, AMOUNT_SCALE, RATE_SCALE,
};

fn chars(s: &str) -> Vec<char> {
    s.chars().collect()
}

fn amount(s: &str) -> Option<u64> {
    parse_amount(&chars(s))
}

fn row(time: &str, debit: &str, currency: &str, bought: &str, other: &str, rates: &str) -> Row {
    Row {
        transacted_at: time.to_string(),
        debit: debit.to_string(),
        currency: currency.to_string(),
        counterparty_amount: bought.to_string(),
        counterparty_currency: other.to_string(),
        rates: rates.to_string(),
        fee_amount: "0.00".to_string(),
    }
}

#[test]
fn amounts_with_separators() {
    assert_eq!(amount("1,234.5"), Some(1234 * AMOUNT_SCALE + AMOUNT_SCALE / 2));
    assert_eq!(amount("0.00000001"), Some(1));
    assert_eq!(amount("7"), Some(7 * AMOUNT_SCALE));
    assert_eq!(amount(".25"), Some(AMOUNT_SCALE / 4));
    assert_eq!(amount("3."), Some(3 * AMOUNT_SCALE));
    assert_eq!(amount("1.123456789"), Some(112_345_678));
}

#[test]
fn amounts_that_do_not_read() {
    assert_eq!(amount(""), None);
    assert_eq!(amount("."), None);
    assert_eq!(amount(","), None);
    assert_eq!(amount("1.2.3"), None);
    assert_eq!(amount("-5"), None);
    assert_eq!(amount("12a"), None);
    assert_eq!(amount("1.5x"), None);
}

#[test]
fn amounts_at_the_limit() {
    assert_eq!(amount("184467440737.09551615"), Some(u64::MAX));
    assert_eq!(amount("184467440737.09551616"), None);
    assert_eq!(amount("99999999999999999999999"), None);
    assert_eq!(parse_decimal(&chars("0")), Some(0));
}

#[test]
fn rate_after_separator() {
    assert_eq!(parse_rate(&chars("1 BTC = $40,000.00 AUD")), Some(40_000 * RATE_SCALE));
    assert_eq!(parse_rate(&chars("1 ETH = $  2,500.5 AUD")), Some(2_500 * RATE_SCALE + RATE_SCALE / 2));
    assert_eq!(parse_rate(&chars("1 BTC = 40000 AUD")), None);
    assert_eq!(parse_rate(&chars("1 BTC = $")), None);
    assert_eq!(parse_rate(&chars("1 BTC = $abc AUD")), None);
}

#[test]
fn buy_row() {
    let r = row("2021-03-01 10:00:00 UTC", "1,000.00", "AUD", "0.5", "BTC", "1 BTC = $2,000.00 AUD");
    let t = r.into_transaction().unwrap().unwrap();
    assert_eq!(t.transaction_type, TransactionType::Buy);
    assert_eq!(t.currency, Currency("BTC".to_string()));
    assert_eq!(t.amount, AMOUNT_SCALE / 2);
    assert_eq!(t.rate, 2_000 * RATE_SCALE);
    assert_eq!(t.unixtime, 1_614_592_800);
}

#[test]
fn sell_row() {
    let r = row("2021-03-02 00:00:01 UTC", "0.25", "BTC", "600", "AUD", "1 BTC = $2,400.00 AUD");
    let t = r.into_transaction().unwrap().unwrap();
    assert_eq!(t.transaction_type, TransactionType::Sell);
    assert_eq!(t.currency, Currency("BTC".to_string()));
    assert_eq!(t.amount, AMOUNT_SCALE / 4);
    assert_eq!(t.rate, 2_400 * RATE_SCALE);
    assert_eq!(t.unixtime, 1_614_643_201);
}

#[test]
fn row_errors() {
    let r = row("2021-03-02 00:00:01 UTC", "1", "BTC", "1", "AUD", "no price");
    assert_eq!(r.into_transaction().unwrap().unwrap_err(), RowError::Rate);
    let r = row("yesterday", "1", "BTC", "1", "AUD", "1 BTC = $1 AUD");
    assert_eq!(r.into_transaction().unwrap().unwrap_err(), RowError::Timestamp);
    let r = row("1960-01-01 00:00:00 UTC", "1", "BTC", "1", "AUD", "1 BTC = $1 AUD");
    assert_eq!(r.into_transaction().unwrap().unwrap_err(), RowError::Timestamp);
}

#[test]
fn unreadable_amount_skips_row() {
    let r = row("2021-03-02 00:00:01 UTC", "n/a", "BTC", "1", "AUD", "1 BTC = $1 AUD");
    assert!(r.into_transaction().is_none());
}

#[test]
fn rows_in_order_with_skips() {
    let rows = vec![
        row("2021-03-01 10:00:00 UTC", "1,000.00", "AUD", "0.5", "BTC", "1 BTC = $2,000.00 AUD"),
        row("2021-03-01 11:00:00 UTC", "?", "AUD", "0.5", "BTC", "1 BTC = $2,000.00 AUD"),
        row("2021-03-02 00:00:01 UTC", "0.25", "BTC", "600", "AUD", "1 BTC = $2,400.00 AUD"),
    ];
    let ts = CoinjarReader {}.transactions_from_rows(&rows).unwrap();
    assert_eq!(ts.len(), 2);
    assert_eq!(ts[0].transaction_type, TransactionType::Buy);
    assert_eq!(ts[1].transaction_type, TransactionType::Sell);
}

#[test]
fn first_bad_row_fails_the_read() {
    let rows = vec![
        row("2021-03-01 10:00:00 UTC", "1", "AUD", "0.5", "BTC", "broken"),
        row("later", "1", "AUD", "0.5", "BTC", "1 BTC = $1 AUD"),
    ];
    assert_eq!(CoinjarReader {}.transactions_from_rows(&rows).unwrap_err(), RowError::Rate);
}
