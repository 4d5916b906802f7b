//! Realized capital gains per currency, by first-in-first-out lot matching.
//!
//! Quantities and rates are fixed-point integers: an amount counts
//! `AMOUNT_SCALE`-ths of one unit of its currency, and a rate counts
//! `RATE_SCALE`-ths of one home-currency unit per whole unit of the currency.
//! A gain is therefore exact, in `AMOUNT_SCALE * RATE_SCALE`-ths of one
//! home-currency unit.
pub mod calculator;
pub mod decimal;
pub mod fifo;
pub mod laws;
pub mod partition;
pub mod picker;
pub mod reader;
pub mod types;

pub use calculator::{Calculator, CalculatorType};
pub use fifo::{match_sell, CurrencyGain, FifoCalculator, GainsError};
pub use partition::{partition, sort_by_time};
pub use picker::DataPickerState;
pub use types::{
    Currency, Transaction, TransactionType, AMOUNT_SCALE, EXHAUSTION_THRESHOLD, RATE_SCALE,
};
pub use reader::{
    CoinjarReader, CoinjarSimpleReader, ReaderType, Row, RowError, TransactionsFile,
};
