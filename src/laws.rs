use vstd::prelude::*;

use crate::fifo::{capital_gains, currency_gain, lemma_gains_over_entries, settle, GainsError};
use crate::partition::{currencies_in, in_currency, lemma_in_currency_time_sorted, time_sorted};
use crate::types::{exhausted, match_delta, match_gain, with_amount, Transaction};

verus! {

/// Transactions in other currencies never change the gain of currency `c`:
/// two collections with the same transactions in `c`, in the same order,
/// however the others are interleaved among them, give `c` the same gain or
/// the same failure.
pub proof fn lemma_currency_independence(s: Seq<Transaction>, t: Seq<Transaction>, c: Seq<char>)
    requires
        in_currency(s, c) == in_currency(t, c),
    ensures
        currency_gain(s, c) == currency_gain(t, c),
{
    lemma_in_currency_time_sorted(s, c);
    lemma_in_currency_time_sorted(t, c);
}

/// Each gain that the aggregate lists is the gain of its currency's own
/// transactions, so by `lemma_currency_independence` no other currency
/// bears on it.
pub proof fn lemma_listed_gains(s: Seq<Transaction>)
    requires
        capital_gains(s) is Ok,
    ensures
        forall|j: int|
            0 <= j < capital_gains(s)->Ok_0.len() ==> currency_gain(
                s,
                (#[trigger] capital_gains(s)->Ok_0[j]).0,
            ) == Ok::<int, GainsError>(capital_gains(s)->Ok_0[j].1),
{
    lemma_gains_over_entries(time_sorted(s), currencies_in(time_sorted(s)));
}

/// The outcome depends on the transactions alone: equal inputs give equal
/// gains, or equal failures.
pub proof fn lemma_deterministic(s: Seq<Transaction>, t: Seq<Transaction>)
    requires
        s =~= t,
    ensures
        capital_gains(s) == capital_gains(t),
{
}

/// Whether no lot of `lots` is exhausted.
pub open spec fn no_exhausted_lot(lots: Seq<Transaction>) -> bool {
    forall|i: int| 0 <= i < lots.len() ==> !exhausted((#[trigger] lots[i]).amount as int)
}

/// A lot that a sell reduces below the exhaustion threshold leaves the
/// queue: where no open lot was exhausted before a sell, none is after it.
pub proof fn lemma_exhausted_lots_leave(lots: Seq<Transaction>, sell: Transaction, gain: int)
    requires
        no_exhausted_lot(lots),
        settle(lots, sell, gain) is Ok,
    ensures
        no_exhausted_lot(settle(lots, sell, gain)->Ok_0.0),
    decreases lots.len(),
{
    if !exhausted(sell.amount as int) && lots.len() > 0 {
        let rest = lots.drop_first();
        assert(no_exhausted_lot(rest)) by {
            assert forall|i: int| 0 <= i < rest.len() implies !exhausted(
                (#[trigger] rest[i]).amount as int,
            ) by {
                assert(rest[i] == lots[i + 1]);
            }
        }
        let head = lots[0];
        let delta = match_delta(head, sell);
        let head_left = with_amount(head, (head.amount - delta) as u64);
        let sell_left = with_amount(sell, (sell.amount - delta) as u64);
        let step = match_gain(delta as int, head.rate as int, sell.rate as int);
        if exhausted(head_left.amount as int) {
            lemma_exhausted_lots_leave(rest, sell_left, gain + step);
        } else {
            let out = seq![head_left] + rest;
            assert(settle(lots, sell, gain)->Ok_0.0 == out);
            assert forall|i: int| 0 <= i < out.len() implies !exhausted(
                (#[trigger] out[i]).amount as int,
            ) by {
                if i > 0 {
                    assert(out[i] == rest[i - 1]);
                }
            }
        }
    }
}

} // verus!
