use vstd::prelude::*;

verus! {

/// Sub-units in one whole unit of a traded currency.
pub const AMOUNT_SCALE: u64 = 100_000_000;

/// Sub-units in one home-currency unit, as a rate counts them.
pub const RATE_SCALE: u64 = 100_000_000;

/// A remaining amount below this many sub-units (one hundred-thousandth of a
/// unit) counts as nothing left.
pub const EXHAUSTION_THRESHOLD: u64 = 1000;

/// Identifier of a traded currency, such as a ticker.
#[derive(Clone, Debug, Hash)]
pub struct Currency(pub String);

impl View for Currency {
    type V = Seq<char>;

    open spec fn view(&self) -> Seq<char> {
        self.0@
    }
}

impl PartialEq for Currency {
    fn eq(&self, other: &Currency) -> (r: bool) {
        self.0 == other.0
    }
}

impl vstd::std_specs::cmp::PartialEqSpecImpl for Currency {
    open spec fn obeys_eq_spec() -> bool {
        true
    }

    open spec fn eq_spec(&self, other: &Currency) -> bool {
        self@ == other@
    }
}

impl Eq for Currency {
}

#[derive(Clone, Copy, Debug, PartialEq, Eq, Structural)]
pub enum TransactionType {
    Buy,
    Sell,
}

/// One buy or sell of `currency` against the home currency.
#[derive(Clone, Debug)]
pub struct Transaction {
    /// Remaining quantity, in sub-units of `currency`; only matching lowers it.
    pub amount: u64,
    /// The currency bought or sold.
    pub currency: Currency,
    /// Home-currency sub-units paid or received per whole unit of `currency`.
    pub rate: u64,
    pub transaction_type: TransactionType,
    /// Seconds since the epoch; used only to order transactions.
    pub unixtime: u64,
}

/// `t` with its remaining amount replaced by `amount`.
pub open spec fn with_amount(t: Transaction, amount: u64) -> Transaction {
    Transaction {
        amount,
        currency: t.currency,
        rate: t.rate,
        transaction_type: t.transaction_type,
        unixtime: t.unixtime,
    }
}

/// Whether `amount` sub-units count as nothing left.
pub open spec fn exhausted(amount: int) -> bool {
    amount < EXHAUSTION_THRESHOLD
}

/// The quantity that matching a buy against a sell consumes from both.
pub open spec fn match_delta(buy: Transaction, sell: Transaction) -> u64 {
    if buy.amount <= sell.amount {
        buy.amount
    } else {
        sell.amount
    }
}

/// The gain from selling `delta` sub-units bought at `buy_rate` for `sell_rate`.
pub open spec fn match_gain(delta: int, buy_rate: int, sell_rate: int) -> int {
    delta * (sell_rate - buy_rate)
}

pub open spec fn fits_i128(x: int) -> bool {
    i128::MIN <= x <= i128::MAX
}

/// Copies a transaction field by field.
pub fn copy_transaction(t: &Transaction) -> (r: Transaction)
    ensures
        r == *t,
{
    Transaction {
        amount: t.amount,
        currency: Currency(t.currency.0.clone()),
        rate: t.rate,
        transaction_type: t.transaction_type,
        unixtime: t.unixtime,
    }
}

impl Transaction {
    pub fn new(
        amount: u64,
        currency: Currency,
        rate: u64,
        transaction_type: TransactionType,
        unixtime: u64,
    ) -> (r: Transaction)
        ensures
            r.amount == amount,
            r.currency == currency,
            r.rate == rate,
            r.transaction_type == transaction_type,
            r.unixtime == unixtime,
    {
        Transaction { amount, currency, rate, transaction_type, unixtime }
    }

    /// Whether nothing is left of this transaction, up to the threshold that
    /// absorbs rounding in the readers' input.
    pub fn is_exhausted(&self) -> (r: bool)
        ensures
            r == exhausted(self.amount as int),
    {
        self.amount < EXHAUSTION_THRESHOLD
    }

    /// Matches the sell `other` against this buy: both lose the smaller of
    /// the two remaining amounts, `delta`. Returns the gain
    /// `delta * (other.rate - self.rate)`, or `None` where it does not fit
    /// in an `i128` (the amounts are reduced either way).
    pub fn subtract_sell(&mut self, other: &mut Transaction) -> (r: Option<i128>)
        requires
            old(self).transaction_type == TransactionType::Buy,
            old(other).transaction_type == TransactionType::Sell,
            old(self).currency@ == old(other).currency@,
        ensures
            ({
                let delta = match_delta(*old(self), *old(other));
                &&& *final(self) == with_amount(*old(self), (old(self).amount - delta) as u64)
                &&& *final(other) == with_amount(*old(other), (old(other).amount - delta) as u64)
                &&& match r {
                    Some(g) => g == match_gain(delta as int, old(self).rate as int, old(other).rate as int),
                    None => !fits_i128(match_gain(delta as int, old(self).rate as int, old(other).rate as int)),
                }
            }),
    {
        let delta: u64 = if self.amount <= other.amount {
            self.amount
        } else {
            other.amount
        };
        self.amount = self.amount - delta;
        other.amount = other.amount - delta;
        let rising = other.rate >= self.rate;
        let spread: u64 = if rising {
            other.rate - self.rate
        } else {
            self.rate - other.rate
        };
        let ghost gain = match_gain(delta as int, self.rate as int, other.rate as int);
        proof {
            let (d, sp) = (delta as int, spread as int);
            assert(0 <= d * sp <= (u64::MAX as int) * (u64::MAX as int)) by (nonlinear_arith)
                requires
                    0 <= d <= u64::MAX,
                    0 <= sp <= u64::MAX,
            ;
            assert(gain == if rising { d * sp } else { -(d * sp) }) by (nonlinear_arith)
                requires
                    gain == d * (other.rate - self.rate),
                    rising ==> sp == other.rate - self.rate,
                    !rising ==> sp == self.rate - other.rate,
            ;
        }
        let magnitude: u128 = (delta as u128) * (spread as u128);
        if magnitude > i128::MAX as u128 {
            // a loss of exactly 2^127 still fits
            if !rising && magnitude == (i128::MAX as u128) + 1 {
                return Some(i128::MIN);
            }
            return None;
        }
        let m: i128 = magnitude as i128;
        if rising {
            Some(m)
        } else {
            Some(-m)
        }
    }
}

} // verus!
