use std::collections::VecDeque;
use vstd::prelude::*;

use crate::calculator::Calculator;
use crate::partition::{
    currencies_in, in_currency, lemma_in_currency_all, partition, sort_by_time, time_sorted,
};
use crate::types::{
    copy_transaction, exhausted, fits_i128, match_delta, match_gain, with_amount, Currency,
    Transaction, TransactionType,
};

verus! {

/// Why no gain could be computed.
#[derive(Debug)]
pub enum GainsError {
    /// A sell exceeds every buy before it: the history lacks buy events.
    /// Names the sell and the quantity that no lot covered.
    InsufficientLots { currency: Currency, unixtime: u64, remaining: u64 },
    /// The gain while matching this sell leaves the range of `i128`.
    GainOverflow { currency: Currency, unixtime: u64 },
}

/// Whether every transaction of `s` is in currency `c`.
pub open spec fn all_in_currency(s: Seq<Transaction>, c: Seq<char>) -> bool {
    forall|i: int| 0 <= i < s.len() ==> (#[trigger] s[i]).currency@ == c
}

/// Whether all transactions of `s` share one currency.
pub open spec fn single_currency(s: Seq<Transaction>) -> bool {
    s.len() > 0 ==> all_in_currency(s, s[0].currency@)
}

/// Whether every transaction of `s` is a buy.
pub open spec fn all_buys(s: Seq<Transaction>) -> bool {
    forall|i: int| 0 <= i < s.len() ==> (#[trigger] s[i]).transaction_type == TransactionType::Buy
}

/// Matches `sell` against the open lots, oldest first, starting from the
/// running gain `gain`: the lots left open and the new running gain. A lot
/// whose remainder is exhausted leaves the queue.
pub open spec fn settle(lots: Seq<Transaction>, sell: Transaction, gain: int) -> Result<
    (Seq<Transaction>, int),
    GainsError,
>
    decreases lots.len(),
{
    if exhausted(sell.amount as int) {
        Ok((lots, gain))
    } else if lots.len() == 0 {
        Err(
            GainsError::InsufficientLots {
                currency: sell.currency,
                unixtime: sell.unixtime,
                remaining: sell.amount,
            },
        )
    } else {
        let head = lots[0];
        let delta = match_delta(head, sell);
        let step = match_gain(delta as int, head.rate as int, sell.rate as int);
        let head_left = with_amount(head, (head.amount - delta) as u64);
        let sell_left = with_amount(sell, (sell.amount - delta) as u64);
        if !fits_i128(step) || !fits_i128(gain + step) {
            Err(GainsError::GainOverflow { currency: sell.currency, unixtime: sell.unixtime })
        } else if exhausted(head_left.amount as int) {
            settle(lots.drop_first(), sell_left, gain + step)
        } else {
            Ok((seq![head_left] + lots.drop_first(), gain + step))
        }
    }
}

/// Runs the matcher over `txs` in order: the open lots and the realized gain
/// after the last one, or the first failure.
pub open spec fn fifo_run(txs: Seq<Transaction>) -> Result<(Seq<Transaction>, int), GainsError>
    decreases txs.len(),
{
    if txs.len() == 0 {
        Ok((Seq::empty(), 0))
    } else {
        match fifo_run(txs.drop_last()) {
            Ok((lots, gain)) => {
                let t = txs.last();
                if t.transaction_type == TransactionType::Buy {
                    Ok((lots.push(t), gain))
                } else {
                    settle(lots, t, gain)
                }
            },
            Err(e) => Err(e),
        }
    }
}

/// The realized gain of one currency's time-ordered transactions.
pub open spec fn fifo_gain(txs: Seq<Transaction>) -> Result<int, GainsError> {
    match fifo_run(txs) {
        Ok((_, gain)) => Ok(gain),
        Err(e) => Err(e),
    }
}

pub open spec fn widen(r: Result<i128, GainsError>) -> Result<int, GainsError> {
    match r {
        Ok(g) => Ok(g as int),
        Err(e) => Err(e),
    }
}

proof fn lemma_run_failure_persists(txs: Seq<Transaction>, i: int)
    requires
        0 <= i <= txs.len(),
        fifo_run(txs.take(i)) is Err,
    ensures
        fifo_run(txs) == fifo_run(txs.take(i)),
    decreases txs.len() - i,
{
    if i < txs.len() {
        assert(txs.drop_last().take(i) =~= txs.take(i));
        lemma_run_failure_persists(txs.drop_last(), i);
        assert(txs.take(txs.len() as int) =~= txs);
    } else {
        assert(txs.take(i) =~= txs);
    }
}

/// Matches `sell` against the lot queue, oldest lot first, adding each
/// match's gain to `gain`. Lots that are used up leave the queue; a sell
/// that outlasts the queue fails with `InsufficientLots`.
pub fn match_sell(lots: &mut VecDeque<Transaction>, sell: Transaction, gain: i128) -> (r: Result<
    i128,
    GainsError,
>)
    requires
        sell.transaction_type == TransactionType::Sell,
        all_buys(old(lots)@),
        all_in_currency(old(lots)@, sell.currency@),
    ensures
        match settle(old(lots)@, sell, gain as int) {
            Ok((left, total)) => r == Ok::<i128, GainsError>(total as i128) && final(lots)@ == left
                && fits_i128(total),
            Err(e) => r == Err::<i128, GainsError>(e),
        },
        r is Ok ==> all_buys(final(lots)@) && all_in_currency(final(lots)@, sell.currency@),
{
    let ghost start = settle(lots@, sell, gain as int);
    let ghost c = sell.currency@;
    let mut open_sell = sell;
    let mut running = gain;
    while !open_sell.is_exhausted()
        invariant
            settle(lots@, open_sell, running as int) == start,
            start == settle(old(lots)@, sell, gain as int),
            open_sell.transaction_type == TransactionType::Sell,
            open_sell.currency@ == c,
            all_buys(lots@),
            all_in_currency(lots@, c),
        decreases lots@.len() + if open_sell.amount > 0 { 1int } else { 0int },
    {
        let mut lot = match lots.pop_front() {
            Some(lot) => lot,
            None => {
                return Err(
                    GainsError::InsufficientLots {
                        currency: open_sell.currency,
                        unixtime: open_sell.unixtime,
                        remaining: open_sell.amount,
                    },
                );
            },
        };
        assert(lot.currency@ == c);
        let step = lot.subtract_sell(&mut open_sell);
        let total = match step {
            Some(step) => running.checked_add(step),
            None => None,
        };
        match total {
            Some(total) => {
                running = total;
            },
            None => {
                return Err(
                    GainsError::GainOverflow { currency: open_sell.currency, unixtime: open_sell.unixtime },
                );
            },
        }
        if !lot.is_exhausted() {
            lots.push_front(lot);
        }
    }
    Ok(running)
}

/// The realized gain of one currency, in `AMOUNT_SCALE * RATE_SCALE`-ths of
/// a home-currency unit.
#[derive(Debug)]
pub struct CurrencyGain {
    pub currency: Currency,
    pub gain: i128,
}

/// The gains of the currencies `cs`, in that order, each from the
/// transactions of `sorted` in that currency; or the first failure.
pub open spec fn gains_over(sorted: Seq<Transaction>, cs: Seq<Seq<char>>) -> Result<
    Seq<(Seq<char>, int)>,
    GainsError,
>
    decreases cs.len(),
{
    if cs.len() == 0 {
        Ok(Seq::empty())
    } else {
        match gains_over(sorted, cs.drop_last()) {
            Ok(done) => match fifo_gain(in_currency(sorted, cs.last())) {
                Ok(g) => Ok(done.push((cs.last(), g))),
                Err(e) => Err(e),
            },
            Err(e) => Err(e),
        }
    }
}

/// The realized gain of every currency of `s`, in order of each currency's
/// first transaction in time; or the failure of the first currency that fails.
pub open spec fn capital_gains(s: Seq<Transaction>) -> Result<Seq<(Seq<char>, int)>, GainsError> {
    gains_over(time_sorted(s), currencies_in(time_sorted(s)))
}

/// The realized gain of currency `c` among the transactions `s`.
pub open spec fn currency_gain(s: Seq<Transaction>, c: Seq<char>) -> Result<int, GainsError> {
    fifo_gain(in_currency(time_sorted(s), c))
}

pub open spec fn gains_view(v: Seq<CurrencyGain>) -> Seq<(Seq<char>, int)> {
    v.map_values(|g: CurrencyGain| (g.currency@, g.gain as int))
}

pub open spec fn widen_gains(r: Result<Vec<CurrencyGain>, GainsError>) -> Result<
    Seq<(Seq<char>, int)>,
    GainsError,
> {
    match r {
        Ok(v) => Ok(gains_view(v@)),
        Err(e) => Err(e),
    }
}

proof fn lemma_gains_over_keys(sorted: Seq<Transaction>, cs: Seq<Seq<char>>)
    requires
        gains_over(sorted, cs) is Ok,
    ensures
        gains_over(sorted, cs)->Ok_0.len() == cs.len(),
        forall|j: int| 0 <= j < cs.len() ==> (#[trigger] gains_over(sorted, cs)->Ok_0[j]).0 == cs[j],
    decreases cs.len(),
{
    if cs.len() > 0 {
        lemma_gains_over_keys(sorted, cs.drop_last());
    }
}

/// Each gain that `gains_over` lists is that of its currency's transactions.
pub proof fn lemma_gains_over_entries(sorted: Seq<Transaction>, cs: Seq<Seq<char>>)
    requires
        gains_over(sorted, cs) is Ok,
    ensures
        forall|j: int|
            0 <= j < gains_over(sorted, cs)->Ok_0.len() ==> fifo_gain(
                in_currency(sorted, (#[trigger] gains_over(sorted, cs)->Ok_0[j]).0),
            ) == Ok::<int, GainsError>(gains_over(sorted, cs)->Ok_0[j].1),
    decreases cs.len(),
{
    if cs.len() > 0 {
        lemma_gains_over_entries(sorted, cs.drop_last());
    }
}

proof fn lemma_gains_failure_persists(sorted: Seq<Transaction>, cs: Seq<Seq<char>>, k: int)
    requires
        0 <= k <= cs.len(),
        gains_over(sorted, cs.take(k)) is Err,
    ensures
        gains_over(sorted, cs) == gains_over(sorted, cs.take(k)),
    decreases cs.len() - k,
{
    if k < cs.len() {
        assert(cs.drop_last().take(k) =~= cs.take(k));
        lemma_gains_failure_persists(sorted, cs.drop_last(), k);
    } else {
        assert(cs.take(k) =~= cs);
    }
}

proof fn lemma_currencies_prefix(s: Seq<Transaction>, i: int)
    requires
        0 <= i <= s.len(),
    ensures
        currencies_in(s.take(i)).len() <= currencies_in(s).len(),
        currencies_in(s.take(i)) == currencies_in(s).take(currencies_in(s.take(i)).len() as int),
    decreases s.len(),
{
    if i < s.len() {
        assert(s.drop_last().take(i) =~= s.take(i));
        lemma_currencies_prefix(s.drop_last(), i);
        let whole = currencies_in(s);
        let before = currencies_in(s.drop_last());
        let n = currencies_in(s.take(i)).len() as int;
        assert(whole.take(n) =~= before.take(n));
    } else {
        assert(s.take(i) =~= s);
        assert(currencies_in(s).take(currencies_in(s).len() as int) =~= currencies_in(s));
    }
}

/// The first-in-first-out matcher.
pub struct FifoCalculator {}

impl FifoCalculator {
    /// The realized gain of one currency's transactions, taken in the given
    /// order.
    pub fn calculate_capital_gains_single_currency(&self, transactions: Vec<Transaction>) -> (r:
        Result<i128, GainsError>)
        requires
            single_currency(transactions@),
        ensures
            widen(r) == fifo_gain(transactions@),
    {
        let ghost s = transactions@;
        let mut lots: VecDeque<Transaction> = VecDeque::new();
        let mut gain: i128 = 0;
        let n = transactions.len();
        let mut i: usize = 0;
        assert(s.take(0) =~= Seq::<Transaction>::empty());
        while i < n
            invariant
                n == s.len(),
                s == transactions@,
                single_currency(s),
                0 <= i <= n,
                fifo_run(s.take(i as int)) == Ok::<(Seq<Transaction>, int), GainsError>(
                    (lots@, gain as int),
                ),
                all_buys(lots@),
                n > 0 ==> all_in_currency(lots@, s[0].currency@),
            decreases n - i,
        {
            let t = copy_transaction(&transactions[i]);
            assert(s.take(i + 1).drop_last() =~= s.take(i as int));
            assert(s.take(i + 1).last() == t);
            match t.transaction_type {
                TransactionType::Buy => {
                    lots.push_back(t);
                },
                TransactionType::Sell => {
                    match match_sell(&mut lots, t, gain) {
                        Ok(total) => {
                            gain = total;
                        },
                        Err(e) => {
                            proof {
                                lemma_run_failure_persists(s, i + 1);
                            }
                            return Err(e);
                        },
                    }
                },
            }
            i = i + 1;
        }
        assert(s.take(n as int) =~= s);
        Ok(gain)
    }
}

impl Calculator for FifoCalculator {
    open spec fn spec_gains(&self, s: Seq<Transaction>) -> Result<Seq<(Seq<char>, int)>, GainsError> {
        capital_gains(s)
    }

    /// The realized gain of every currency among `transactions`, which may
    /// come in any order: each currency's transactions are matched in time
    /// order. Fails as soon as one currency fails.
    fn calculate_capital_gains(&self, transactions: Vec<Transaction>) -> (r: Result<
        Vec<CurrencyGain>,
        GainsError,
    >)
    {
        let ghost input = transactions@;
        let sorted = sort_by_time(transactions);
        let ghost s = sorted@;
        let mut out: Vec<CurrencyGain> = Vec::new();
        let mut i: usize = 0;
        assert(s.take(0) =~= Seq::<Transaction>::empty());
        assert(gains_view(out@) =~= Seq::<(Seq<char>, int)>::empty());
        while i < sorted.len()
            invariant
                s == sorted@,
                s == time_sorted(input),
                input == transactions@,
                0 <= i <= s.len(),
                gains_over(s, currencies_in(s.take(i as int))) == Ok::<
                    Seq<(Seq<char>, int)>,
                    GainsError,
                >(gains_view(out@)),
            decreases s.len() - i,
        {
            let ghost seen = currencies_in(s.take(i as int));
            proof {
                lemma_gains_over_keys(s, seen);
                assert(s.take(i + 1).drop_last() =~= s.take(i as int));
            }
            let currency = &sorted[i].currency;
            let mut j: usize = 0;
            while j < out.len() && !(out[j].currency.0 == currency.0)
                invariant
                    0 <= j <= out@.len(),
                    forall|k: int| 0 <= k < j ==> (#[trigger] out@[k]).currency@ != currency@,
                decreases out@.len() - j,
            {
                j = j + 1;
            }
            assert(gains_view(out@).len() == out@.len());
            assert(forall|k: int| 0 <= k < out@.len() ==> (#[trigger] gains_view(out@)[k]).0 == out@[k].currency@);
            if j == out.len() {
                assert(!seen.contains(currency@)) by {
                    if seen.contains(currency@) {
                        let k = choose|k: int| 0 <= k < seen.len() && seen[k] == currency@;
                        assert(gains_over(s, seen)->Ok_0[k].0 == seen[k]);
                        assert(gains_view(out@)[k].0 == out@[k].currency@);
                    }
                }
                let part = partition(&sorted, currency);
                proof {
                    lemma_in_currency_all(s, currency@);
                    assert(seen.push(currency@).drop_last() =~= seen);
                    assert(currencies_in(s.take(i + 1)) == seen.push(currency@));
                }
                match self.calculate_capital_gains_single_currency(part) {
                    Ok(gain) => {
                        let ghost before = out@;
                        out.push(CurrencyGain { currency: Currency(currency.0.clone()), gain });
                        assert(gains_view(out@) =~= gains_view(before).push((currency@, gain as int)));
                    },
                    Err(e) => {
                        proof {
                            let cs = seen.push(currency@);
                            assert(cs.drop_last() =~= seen);
                            assert(gains_over(s, cs) == Err::<Seq<(Seq<char>, int)>, GainsError>(e));
                            lemma_currencies_prefix(s, i + 1);
                            lemma_gains_failure_persists(
                                s,
                                currencies_in(s),
                                currencies_in(s.take(i + 1)).len() as int,
                            );
                        }
                        return Err(e);
                    },
                }
            } else {
                assert(gains_over(s, seen)->Ok_0[j as int].0 == seen[j as int]);
                assert(gains_view(out@)[j as int].0 == out@[j as int].currency@);
                assert(seen.contains(currency@));
                assert(currencies_in(s.take(i + 1)) == seen);
            }
            i = i + 1;
        }
        assert(s.take(s.len() as int) =~= s);
        Ok(out)
    }
}

} // verus!
