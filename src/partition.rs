use vstd::prelude::*;

use crate::types::{copy_transaction, Currency, Transaction};

verus! {

/// `s` with `t` placed before the first transaction that is not earlier
/// than it.
pub open spec fn insert_by_time(s: Seq<Transaction>, t: Transaction) -> Seq<Transaction>
    decreases s.len(),
{
    if s.len() == 0 || t.unixtime <= s[0].unixtime {
        seq![t] + s
    } else {
        seq![s[0]] + insert_by_time(s.drop_first(), t)
    }
}

/// `s` ordered by time; transactions of equal time keep their order in `s`.
pub open spec fn time_sorted(s: Seq<Transaction>) -> Seq<Transaction>
    decreases s.len(),
{
    if s.len() == 0 {
        s
    } else {
        insert_by_time(time_sorted(s.drop_first()), s[0])
    }
}

/// The transactions of `s` in currency `c`, in their order in `s`.
pub open spec fn in_currency(s: Seq<Transaction>, c: Seq<char>) -> Seq<Transaction>
    decreases s.len(),
{
    if s.len() == 0 {
        s
    } else if s[0].currency@ == c {
        seq![s[0]] + in_currency(s.drop_first(), c)
    } else {
        in_currency(s.drop_first(), c)
    }
}

/// The distinct currencies of `s`, in order of first appearance.
pub open spec fn currencies_in(s: Seq<Transaction>) -> Seq<Seq<char>>
    decreases s.len(),
{
    if s.len() == 0 {
        Seq::empty()
    } else {
        let seen = currencies_in(s.drop_last());
        if seen.contains(s.last().currency@) {
            seen
        } else {
            seen.push(s.last().currency@)
        }
    }
}

proof fn lemma_insert_at(s: Seq<Transaction>, t: Transaction, p: int)
    requires
        0 <= p <= s.len(),
        forall|j: int| 0 <= j < p ==> (#[trigger] s[j]).unixtime < t.unixtime,
        p == s.len() || t.unixtime <= s[p].unixtime,
    ensures
        insert_by_time(s, t) == s.insert(p, t),
    decreases p,
{
    if p == 0 {
        assert(seq![t] + s =~= s.insert(0, t));
    } else {
        lemma_insert_at(s.drop_first(), t, p - 1);
        assert(seq![s[0]] + s.drop_first().insert(p - 1, t) =~= s.insert(p, t));
    }
}

pub proof fn lemma_in_currency_concat(a: Seq<Transaction>, b: Seq<Transaction>, c: Seq<char>)
    ensures
        in_currency(a + b, c) == in_currency(a, c) + in_currency(b, c),
    decreases a.len(),
{
    if a.len() == 0 {
        assert(a + b =~= b);
        assert(in_currency(a, c) + in_currency(b, c) =~= in_currency(b, c));
    } else {
        assert((a + b).drop_first() =~= a.drop_first() + b);
        lemma_in_currency_concat(a.drop_first(), b, c);
        if a[0].currency@ == c {
            assert(seq![a[0]] + (in_currency(a.drop_first(), c) + in_currency(b, c)) =~= (seq![
                a[0],
            ] + in_currency(a.drop_first(), c)) + in_currency(b, c));
        }
    }
}

pub proof fn lemma_in_currency_all(s: Seq<Transaction>, c: Seq<char>)
    ensures
        forall|i: int|
            0 <= i < in_currency(s, c).len() ==> (#[trigger] in_currency(s, c)[i]).currency@ == c,
    decreases s.len(),
{
    if s.len() > 0 {
        lemma_in_currency_all(s.drop_first(), c);
    }
}

proof fn lemma_in_currency_insert(s: Seq<Transaction>, t: Transaction, c: Seq<char>)
    requires
        sorted_by_time(s),
    ensures
        in_currency(insert_by_time(s, t), c) == if t.currency@ == c {
            insert_by_time(in_currency(s, c), t)
        } else {
            in_currency(s, c)
        },
    decreases s.len(),
{
    if s.len() == 0 || t.unixtime <= s[0].unixtime {
        lemma_in_currency_concat(seq![t], s, c);
        assert((seq![t] + s).drop_first() =~= s);
        if t.currency@ == c {
            let f = in_currency(s, c);
            if f.len() > 0 {
                // the first transaction of `f` is not earlier than that of `s`
                lemma_first_not_earlier(s, c, t.unixtime);
            }
        }
    } else {
        lemma_in_currency_insert(s.drop_first(), t, c);
        assert(s.drop_first().len() > 0 ==> s[0].unixtime <= s.drop_first()[0].unixtime);
        assert((seq![s[0]] + insert_by_time(s.drop_first(), t)).drop_first() =~= insert_by_time(
            s.drop_first(),
            t,
        ));
        if t.currency@ == c && s[0].currency@ == c {
            assert((seq![s[0]] + in_currency(s.drop_first(), c)).drop_first() =~= in_currency(
                s.drop_first(),
                c,
            ));
        }
    }
}

/// Where `s` is ordered by time from a first transaction not earlier than
/// `time`, so is the first transaction of each currency.
proof fn lemma_first_not_earlier(s: Seq<Transaction>, c: Seq<char>, time: u64)
    requires
        s.len() > 0,
        time <= s[0].unixtime,
        sorted_by_time(s),
    ensures
        in_currency(s, c).len() > 0 ==> time <= in_currency(s, c)[0].unixtime,
    decreases s.len(),
{
    if s[0].currency@ != c {
        if s.len() > 1 {
            assert(time <= s.drop_first()[0].unixtime);
            lemma_first_not_earlier(s.drop_first(), c, time);
        } else {
            assert(in_currency(s.drop_first(), c).len() == 0);
        }
    } else {
        assert(in_currency(s, c)[0] == s[0]);
    }
}

proof fn lemma_insert_not_earlier(s: Seq<Transaction>, t: Transaction, time: u64)
    requires
        forall|i: int| 0 <= i < s.len() ==> time <= (#[trigger] s[i]).unixtime,
        time <= t.unixtime,
    ensures
        forall|i: int|
            0 <= i < insert_by_time(s, t).len() ==> time <= (#[trigger] insert_by_time(s, t)[i]).unixtime,
        insert_by_time(s, t).len() == s.len() + 1,
    decreases s.len(),
{
    if s.len() > 0 && t.unixtime > s[0].unixtime {
        lemma_insert_not_earlier(s.drop_first(), t, time);
    }
}

proof fn lemma_insert_sorted(s: Seq<Transaction>, t: Transaction)
    requires
        sorted_by_time(s),
    ensures
        sorted_by_time(insert_by_time(s, t)),
    decreases s.len(),
{
    if s.len() > 0 && t.unixtime > s[0].unixtime {
        let rest = s.drop_first();
        lemma_insert_sorted(rest, t);
        lemma_insert_not_earlier(rest, t, s[0].unixtime);
        let r = insert_by_time(s, t);
        assert(r == seq![s[0]] + insert_by_time(rest, t));
        assert forall|i: int, j: int| 0 <= i < j < r.len() implies r[i].unixtime <= r[j].unixtime by {
            if i > 0 {
                assert(r[i] == insert_by_time(rest, t)[i - 1]);
            }
            assert(r[j] == insert_by_time(rest, t)[j - 1]);
        }
    }
}

proof fn lemma_time_sorted_sorted(s: Seq<Transaction>)
    ensures
        sorted_by_time(time_sorted(s)),
    decreases s.len(),
{
    if s.len() > 0 {
        lemma_time_sorted_sorted(s.drop_first());
        lemma_insert_sorted(time_sorted(s.drop_first()), s[0]);
    }
}

/// Sorting by time and keeping one currency's transactions commute.
pub proof fn lemma_in_currency_time_sorted(s: Seq<Transaction>, c: Seq<char>)
    ensures
        in_currency(time_sorted(s), c) == time_sorted(in_currency(s, c)),
    decreases s.len(),
{
    if s.len() > 0 {
        let rest = s.drop_first();
        lemma_in_currency_time_sorted(rest, c);
        lemma_time_sorted_sorted(rest);
        lemma_in_currency_insert(time_sorted(rest), s[0], c);
        if s[0].currency@ == c {
            assert((seq![s[0]] + in_currency(rest, c)).drop_first() =~= in_currency(rest, c));
        }
    }
}

/// Orders `transactions` by time, keeping the given order among
/// transactions of equal time.
pub fn sort_by_time(transactions: Vec<Transaction>) -> (r: Vec<Transaction>)
    ensures
        r@ == time_sorted(transactions@),
{
    let ghost s = transactions@;
    let mut rest = transactions;
    let mut out: Vec<Transaction> = Vec::new();
    assert(s.skip(s.len() as int) =~= Seq::<Transaction>::empty());
    while rest.len() > 0
        invariant
            rest@ == s.take(rest@.len() as int),
            rest@.len() <= s.len(),
            out@ == time_sorted(s.skip(rest@.len() as int)),
        decreases rest@.len(),
    {
        let ghost k = rest@.len() as int;
        let t = match rest.pop() {
            Some(t) => t,
            None => {
                return out;
            },
        };
        assert(s.skip(k - 1).drop_first() =~= s.skip(k));
        assert(rest@ =~= s.take(k - 1));
        let mut pos: usize = 0;
        while pos < out.len() && out[pos].unixtime < t.unixtime
            invariant
                0 <= pos <= out@.len(),
                forall|j: int| 0 <= j < pos ==> (#[trigger] out@[j]).unixtime < t.unixtime,
            decreases out@.len() - pos,
        {
            pos = pos + 1;
        }
        proof {
            lemma_insert_at(out@, t, pos as int);
        }
        out.insert(pos, t);
    }
    assert(s.skip(0) =~= s);
    out
}

/// The transactions of `transactions` in `currency`, in their given order.
pub fn partition(transactions: &Vec<Transaction>, currency: &Currency) -> (r: Vec<Transaction>)
    ensures
        r@ == in_currency(transactions@, currency@),
{
    let ghost s = transactions@;
    let mut out: Vec<Transaction> = Vec::new();
    let mut i: usize = 0;
    assert(s.take(0) =~= Seq::<Transaction>::empty());
    while i < transactions.len()
        invariant
            s == transactions@,
            0 <= i <= s.len(),
            out@ == in_currency(s.take(i as int), currency@),
        decreases s.len() - i,
    {
        proof {
            assert(s.take(i + 1) =~= s.take(i as int) + seq![s[i as int]]);
            lemma_in_currency_concat(s.take(i as int), seq![s[i as int]], currency@);
            let one = seq![s[i as int]];
            assert(one.drop_first() =~= Seq::<Transaction>::empty());
            assert(in_currency(one.drop_first(), currency@) == Seq::<Transaction>::empty());
            if s[i as int].currency@ == currency@ {
                assert(in_currency(one, currency@) =~= one);
            } else {
                assert(in_currency(one, currency@) =~= Seq::<Transaction>::empty());
            }
        }
        if transactions[i].currency.0 == currency.0 {
            out.push(copy_transaction(&transactions[i]));
        } else {
            assert(in_currency(s.take(i as int), currency@) + Seq::<Transaction>::empty()
                =~= in_currency(s.take(i as int), currency@));
        }
        i = i + 1;
    }
    assert(s.take(s.len() as int) =~= s);
    out
}

/// Whether `s` is ordered by time.
pub open spec fn sorted_by_time(s: Seq<Transaction>) -> bool {
    forall|i: int, j: int| 0 <= i < j < s.len() ==> s[i].unixtime <= s[j].unixtime
}

} // verus!
