use vstd::prelude::*;

use crate::decimal::{amount_value, chars_of, parse_amount};
use crate::types::{Currency, Transaction, TransactionType};

verus! {

/// The seconds since the epoch that a CoinJar timestamp names, read by
/// chrono as UTC; none where chrono rejects the text.
pub uninterp spec fn coinjar_time_of(text: Seq<char>) -> Option<int>;

/// Whether `c` is white space, as `char::is_whitespace` says.
pub uninterp spec fn is_space(c: char) -> bool;

/// Relies on chrono's `NaiveDateTime::parse_from_str` with the format
/// `%Y-%m-%d %H:%M:%S %Z` (the zone name is skipped, the time taken as UTC),
/// then `NaiveDateTime::and_utc` and `DateTime::timestamp` for the seconds
/// since the epoch. The result depends on the text alone.
#[verifier::external_body]
fn parse_coinjar_time(text: &str) -> (r: Option<i64>)
    ensures
        match r {
            Some(t) => coinjar_time_of(text@) == Some(t as int),
            None => coinjar_time_of(text@) is None,
        },
{
    match chrono::NaiveDateTime::parse_from_str(text, "%Y-%m-%d %H:%M:%S %Z") {
        Ok(t) => Some(t.and_utc().timestamp()),
        Err(_) => None,
    }
}

/// Relies on `char::is_whitespace`.
#[verifier::external_body]
fn whitespace(c: char) -> (r: bool)
    ensures
        r == is_space(c),
{
    c.is_whitespace()
}

/// The readers that understand an export format.
#[derive(Clone, Copy, Debug, PartialEq, Eq, Structural)]
pub enum ReaderType {
    Coinjar,
    CoinjarSimple,
}

/// A file of transactions and the reader for it.
#[derive(Clone, Debug)]
pub struct TransactionsFile {
    pub path: String,
    pub reader_type: ReaderType,
}

/// Reads CoinJar's full transaction export.
pub struct CoinjarReader {}

/// Reads CoinJar's simple export; not supported yet.
pub struct CoinjarSimpleReader {}

/// One line of a CoinJar export, as text.
#[derive(Clone, Debug)]
pub struct Row {
    pub transacted_at: String,
    pub debit: String,
    pub currency: String,
    pub counterparty_amount: String,
    pub counterparty_currency: String,
    pub rates: String,
    pub fee_amount: String,
}

/// Why a line of an export could not become a transaction.
#[derive(Clone, Copy, Debug, PartialEq, Eq, Structural)]
pub enum RowError {
    /// The rates column holds no price after ` = $`.
    Rate,
    /// The time is not one that the export writes, or is before the epoch.
    Timestamp,
}

pub open spec fn home_currency() -> Seq<char> {
    seq!['A', 'U', 'D']
}

pub open spec fn separator_at(s: Seq<char>, k: int) -> bool {
    0 <= k && k + 4 <= s.len() && s[k] == ' ' && s[k + 1] == '=' && s[k + 2] == ' ' && s[k + 3]
        == '$'
}

/// The first position from `k` on where ` = $` starts, or -1.
pub open spec fn separator_from(s: Seq<char>, k: int) -> int
    decreases s.len() - k,
{
    if k < 0 || k + 4 > s.len() {
        -1
    } else if separator_at(s, k) {
        k
    } else {
        separator_from(s, k + 1)
    }
}

/// `s` without its leading white space.
pub open spec fn skip_spaces(s: Seq<char>) -> Seq<char>
    decreases s.len(),
{
    if s.len() > 0 && is_space(s[0]) {
        skip_spaces(s.drop_first())
    } else {
        s
    }
}

/// The length of the run of non-space characters that starts `s`.
pub open spec fn word_len(s: Seq<char>) -> int
    decreases s.len(),
{
    if s.len() == 0 || is_space(s[0]) {
        0
    } else {
        1 + word_len(s.drop_first())
    }
}

/// The price in a rates column such as `1 BTC = $40,000.00 AUD`: the first
/// word after the first ` = $`.
pub open spec fn rate_text(rates: Seq<char>) -> Option<Seq<char>> {
    let k = separator_from(rates, 0);
    if k < 0 {
        None
    } else {
        let rest = skip_spaces(rates.skip(k + 4));
        let word = rest.take(word_len(rest));
        if word.len() == 0 {
            None
        } else {
            Some(word)
        }
    }
}

pub open spec fn rate_value(rates: Seq<char>) -> Option<u64> {
    match rate_text(rates) {
        Some(word) => amount_value(word),
        None => None,
    }
}

/// What a line with readable amounts becomes: a buy where the home currency
/// was paid, else a sell of the debited currency.
pub open spec fn converted(row: Row, debit: u64, bought: u64) -> Result<Transaction, RowError> {
    match rate_value(row.rates@) {
        None => Err(RowError::Rate),
        Some(rate) => match coinjar_time_of(row.transacted_at@) {
            Some(t) => if 0 <= t <= u64::MAX {
                let buy = row.currency@ == home_currency();
                Ok(
                    Transaction {
                        amount: if buy {
                            bought
                        } else {
                            debit
                        },
                        currency: Currency(
                            if buy {
                                row.counterparty_currency
                            } else {
                                row.currency
                            },
                        ),
                        rate,
                        transaction_type: if buy {
                            TransactionType::Buy
                        } else {
                            TransactionType::Sell
                        },
                        unixtime: t as u64,
                    },
                )
            } else {
                Err(RowError::Timestamp)
            },
            None => Err(RowError::Timestamp),
        },
    }
}

/// A line whose amounts do not read as numbers is skipped (`None`).
pub open spec fn row_outcome(row: Row) -> Option<Result<Transaction, RowError>> {
    match (
        amount_value(row.debit@),
        amount_value(row.counterparty_amount@),
        amount_value(row.fee_amount@),
    ) {
        (Some(debit), Some(bought), Some(_)) => Some(converted(row, debit, bought)),
        _ => None,
    }
}

/// The transactions of an export's lines, in order, skipping the lines that
/// are skipped; or the first line's failure.
pub open spec fn rows_outcome(rows: Seq<Row>) -> Result<Seq<Transaction>, RowError>
    decreases rows.len(),
{
    if rows.len() == 0 {
        Ok(Seq::empty())
    } else {
        match rows_outcome(rows.drop_last()) {
            Ok(done) => match row_outcome(rows.last()) {
                None => Ok(done),
                Some(Ok(t)) => Ok(done.push(t)),
                Some(Err(e)) => Err(e),
            },
            Err(e) => Err(e),
        }
    }
}

/// The price that a rates column names, in hundred-millionths.
pub fn parse_rate(rates: &Vec<char>) -> (r: Option<u64>)
    ensures
        r == rate_value(rates@),
{
    let ghost s = rates@;
    let n = rates.len();
    let mut k: usize = 0;
    while k < n && n - k >= 4 && !(rates[k] == ' ' && rates[k + 1] == '=' && rates[k + 2] == ' '
        && rates[k + 3] == '$')
        invariant
            n == s.len(),
            s == rates@,
            0 <= k <= n,
            separator_from(s, 0) == separator_from(s, k as int),
        decreases n - k,
    {
        k = k + 1;
    }
    if k >= n || n - k < 4 {
        return None;
    }
    assert(separator_from(s, 0) == k);
    let mut j: usize = k + 4;
    while j < n && whitespace(rates[j as usize])
        invariant
            n == s.len(),
            s == rates@,
            k + 4 <= j <= n,
            skip_spaces(s.skip(k + 4)) == skip_spaces(s.skip(j as int)),
        decreases n - j,
    {
        assert(s.skip(j as int).drop_first() =~= s.skip(j + 1));
        j = j + 1;
    }
    let ghost rest = s.skip(j as int);
    assert(skip_spaces(rest) == rest);
    let mut word: Vec<char> = Vec::new();
    let mut e: usize = j;
    assert(s.subrange(j as int, j as int) =~= Seq::<char>::empty());
    while e < n && !whitespace(rates[e])
        invariant
            n == s.len(),
            s == rates@,
            j <= e <= n,
            word_len(rest) == (e - j) + word_len(s.skip(e as int)),
            word@ == s.subrange(j as int, e as int),
            rest == s.skip(j as int),
        decreases n - e,
    {
        assert(s.skip(e as int).drop_first() =~= s.skip(e + 1));
        word.push(rates[e]);
        assert(word@ =~= s.subrange(j as int, e + 1));
        e = e + 1;
    }
    assert(word_len(s.skip(e as int)) == 0);
    assert(rest.take(word_len(rest)) =~= word@);
    if word.len() == 0 {
        return None;
    }
    parse_amount(&word)
}

/// Whether `s` names the home currency.
fn is_home_currency(s: &String) -> (r: bool)
    ensures
        r == (s@ == home_currency()),
{
    let v = chars_of(s.as_str());
    let r = v.len() == 3 && v[0] == 'A' && v[1] == 'U' && v[2] == 'D';
    assert(r ==> v@ =~= home_currency());
    r
}

impl Row {
    /// The transaction that this line records; `None` where an amount does
    /// not read as a number, as for a line that cannot be read at all.
    pub fn into_transaction(&self) -> (r: Option<Result<Transaction, RowError>>)
        ensures
            r == row_outcome(*self),
    {
        let debit = parse_amount(&chars_of(self.debit.as_str()));
        let bought = parse_amount(&chars_of(self.counterparty_amount.as_str()));
        let fee = parse_amount(&chars_of(self.fee_amount.as_str()));
        let (debit, bought) = match (debit, bought, fee) {
            (Some(debit), Some(bought), Some(_)) => (debit, bought),
            _ => {
                return None;
            },
        };
        let rate = match parse_rate(&chars_of(self.rates.as_str())) {
            Some(rate) => rate,
            None => {
                return Some(Err(RowError::Rate));
            },
        };
        let time = match parse_coinjar_time(self.transacted_at.as_str()) {
            Some(t) => t,
            None => {
                return Some(Err(RowError::Timestamp));
            },
        };
        if time < 0 {
            return Some(Err(RowError::Timestamp));
        }
        let buy = is_home_currency(&self.currency);
        let t = if buy {
            Transaction::new(
                bought,
                Currency(self.counterparty_currency.clone()),
                rate,
                TransactionType::Buy,
                time as u64,
            )
        } else {
            Transaction::new(
                debit,
                Currency(self.currency.clone()),
                rate,
                TransactionType::Sell,
                time as u64,
            )
        };
        Some(Ok(t))
    }
}

proof fn lemma_rows_failure_persists(rows: Seq<Row>, i: int)
    requires
        0 <= i <= rows.len(),
        rows_outcome(rows.take(i)) is Err,
    ensures
        rows_outcome(rows) == rows_outcome(rows.take(i)),
    decreases rows.len() - i,
{
    if i < rows.len() {
        assert(rows.drop_last().take(i) =~= rows.take(i));
        lemma_rows_failure_persists(rows.drop_last(), i);
    } else {
        assert(rows.take(i) =~= rows);
    }
}

impl CoinjarReader {
    /// The transactions of an export's lines, in order: lines whose amounts
    /// do not read are skipped, and the first line with an unreadable rate
    /// or time fails the whole read.
    pub fn transactions_from_rows(&self, rows: &Vec<Row>) -> (r: Result<
        Vec<Transaction>,
        RowError,
    >)
        ensures
            match r {
                Ok(v) => rows_outcome(rows@) == Ok::<Seq<Transaction>, RowError>(v@),
                Err(e) => rows_outcome(rows@) == Err::<Seq<Transaction>, RowError>(e),
            },
    {
        let ghost s = rows@;
        let mut out: Vec<Transaction> = Vec::new();
        let mut i: usize = 0;
        assert(s.take(0) =~= Seq::<Row>::empty());
        while i < rows.len()
            invariant
                s == rows@,
                0 <= i <= s.len(),
                rows_outcome(s.take(i as int)) == Ok::<Seq<Transaction>, RowError>(out@),
            decreases s.len() - i,
        {
            assert(s.take(i + 1).drop_last() =~= s.take(i as int));
            match rows[i].into_transaction() {
                None => {},
                Some(Ok(t)) => {
                    out.push(t);
                },
                Some(Err(e)) => {
                    proof {
                        lemma_rows_failure_persists(s, i + 1);
                    }
                    return Err(e);
                },
            }
            i = i + 1;
        }
        assert(s.take(s.len() as int) =~= s);
        Ok(out)
    }
}

} // verus!
