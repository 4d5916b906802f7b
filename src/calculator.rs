use vstd::prelude::*;

use crate::fifo::{widen_gains, CurrencyGain, FifoCalculator, GainsError};
use crate::types::Transaction;

verus! {

/// A strategy for computing realized gains per currency.
pub trait Calculator {
    /// What the strategy computes for the transactions `s`.
    spec fn spec_gains(&self, s: Seq<Transaction>) -> Result<Seq<(Seq<char>, int)>, GainsError>;

    fn calculate_capital_gains(&self, transactions: Vec<Transaction>) -> (r: Result<
        Vec<CurrencyGain>,
        GainsError,
    >)
        ensures
            widen_gains(r) == self.spec_gains(transactions@),
    ;
}

/// The available strategies.
#[derive(Clone, Copy, Debug, PartialEq, Eq, Structural)]
pub enum CalculatorType {
    Fifo,
}

impl CalculatorType {
    pub fn get_calculator(&self) -> (r: FifoCalculator) {
        match self {
            CalculatorType::Fifo => FifoCalculator {  },
        }
    }
}

} // verus!
