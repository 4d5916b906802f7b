use vstd::prelude::*;

verus! {

/// `s` without its thousands separators.
pub open spec fn without_commas(s: Seq<char>) -> Seq<char>
    decreases s.len(),
{
    if s.len() == 0 {
        s
    } else if s.last() == ',' {
        without_commas(s.drop_last())
    } else {
        without_commas(s.drop_last()).push(s.last())
    }
}

pub open spec fn is_digit(c: char) -> bool {
    '0' <= c && c <= '9'
}

pub open spec fn all_digits(d: Seq<char>) -> bool {
    forall|i: int| 0 <= i < d.len() ==> is_digit(#[trigger] d[i])
}

/// The number that the decimal digits `d` spell.
pub open spec fn digits_value(d: Seq<char>) -> int
    decreases d.len(),
{
    if d.len() == 0 {
        0
    } else {
        digits_value(d.drop_last()) * 10 + (d.last() as int - '0' as int)
    }
}

/// The position of the first decimal point of `s`, or `s.len()`.
pub open spec fn point_index(s: Seq<char>) -> int
    decreases s.len(),
{
    if s.len() == 0 {
        0
    } else if s[0] == '.' {
        0
    } else {
        1 + point_index(s.drop_first())
    }
}

/// The decimal places of a numeral that count: the first eight.
pub open spec fn counted_places(f: Seq<char>) -> Seq<char> {
    if f.len() <= 8 {
        f
    } else {
        f.take(8)
    }
}

pub open spec fn pow10(n: nat) -> int
    decreases n,
{
    if n == 0 {
        1
    } else {
        10 * pow10((n - 1) as nat)
    }
}

/// The value, in hundred-millionths, of the numeral `s`: digits, then
/// optionally a point and more digits, with at least one digit in all.
/// Decimal places after the eighth are dropped.
pub open spec fn decimal_value(s: Seq<char>) -> Option<int> {
    let p = point_index(s);
    let whole = s.take(p);
    let places = if p < s.len() { s.skip(p + 1) } else { Seq::empty() };
    if all_digits(whole) && all_digits(places) && whole.len() + places.len() > 0 {
        let kept = counted_places(places);
        Some(
            digits_value(whole) * 100_000_000 + digits_value(kept) * pow10(
                (8 - kept.len()) as nat,
            ),
        )
    } else {
        None
    }
}

/// The fixed-point value of a numeral that may hold thousands separators,
/// where it fits in a `u64`.
pub open spec fn amount_value(s: Seq<char>) -> Option<u64> {
    match decimal_value(without_commas(s)) {
        Some(v) => if v <= u64::MAX {
            Some(v as u64)
        } else {
            None
        },
        None => None,
    }
}

proof fn lemma_digits_value_push(d: Seq<char>, c: char)
    ensures
        digits_value(d.push(c)) == digits_value(d) * 10 + (c as int - '0' as int),
{
    assert(d.push(c).drop_last() =~= d);
}

proof fn lemma_digits_value_grows(d: Seq<char>, i: int)
    requires
        all_digits(d),
        0 <= i <= d.len(),
    ensures
        0 <= digits_value(d.take(i)) <= digits_value(d),
    decreases d.len() - i,
{
    if i < d.len() {
        assert(d.drop_last().take(i) =~= d.take(i));
        assert(all_digits(d.drop_last()));
        lemma_digits_value_grows(d.drop_last(), i);
    } else {
        assert(d.take(i) =~= d);
        lemma_digits_value_nonneg(d);
    }
}

proof fn lemma_digits_value_nonneg(d: Seq<char>)
    requires
        all_digits(d),
    ensures
        0 <= digits_value(d),
    decreases d.len(),
{
    if d.len() > 0 {
        assert(all_digits(d.drop_last()));
        lemma_digits_value_nonneg(d.drop_last());
    }
}

proof fn lemma_point_index(s: Seq<char>)
    ensures
        0 <= point_index(s) <= s.len(),
        point_index(s) < s.len() ==> s[point_index(s)] == '.',
        forall|j: int| 0 <= j < point_index(s) ==> s[j] != '.',
    decreases s.len(),
{
    if s.len() > 0 && s[0] != '.' {
        lemma_point_index(s.drop_first());
        assert forall|j: int| 0 <= j < point_index(s) implies s[j] != '.' by {
            if j > 0 {
                assert(s[j] == s.drop_first()[j - 1]);
            }
        }
    }
}

/// The characters of `s`.
pub fn chars_of(s: &str) -> (r: Vec<char>)
    ensures
        r@ == s@,
{
    let n = s.unicode_len();
    let mut out: Vec<char> = Vec::new();
    let mut i: usize = 0;
    while i < n
        invariant
            n == s@.len(),
            0 <= i <= n,
            out@ == s@.take(i as int),
        decreases n - i,
    {
        let c = s.get_char(i);
        out.push(c);
        assert(out@ =~= s@.take(i + 1));
        i = i + 1;
    }
    assert(s@.take(n as int) =~= s@);
    out
}

/// The characters of `v` other than thousands separators.
pub fn strip_commas(v: &Vec<char>) -> (r: Vec<char>)
    ensures
        r@ == without_commas(v@),
{
    let ghost s = v@;
    let n = v.len();
    let mut out: Vec<char> = Vec::new();
    let mut i: usize = 0;
    assert(s.take(0) =~= Seq::<char>::empty());
    while i < n
        invariant
            n == s.len(),
            s == v@,
            0 <= i <= n,
            out@ == without_commas(s.take(i as int)),
        decreases n - i,
    {
        let c = v[i];
        assert(s.take(i + 1).drop_last() =~= s.take(i as int));
        if c != ',' {
            out.push(c);
        }
        i = i + 1;
    }
    assert(s.take(n as int) =~= s);
    out
}

proof fn lemma_pow10_bounds(k: nat)
    requires
        k <= 8,
    ensures
        1 <= pow10(k) <= 100_000_000,
        k < 8 ==> pow10(k) <= 10_000_000,
{
    reveal_with_fuel(pow10, 9);
}

/// Reads the numeral `t` (see `decimal_value`) as a count of
/// hundred-millionths, where it is one and the count fits in a `u64`.
pub fn parse_decimal(t: &Vec<char>) -> (r: Option<u64>)
    ensures
        r == match decimal_value(t@) {
            Some(v) => if v <= u64::MAX {
                Some(v as u64)
            } else {
                None::<u64>
            },
            None => None,
        },
{
    let ghost s = t@;
    proof {
        lemma_point_index(s);
    }
    let ghost p = point_index(s);
    let ghost places = if p < s.len() { s.skip(p + 1) } else { Seq::<char>::empty() };
    let n = t.len();
    // the whole part
    let mut i: usize = 0;
    let mut whole: u64 = 0;
    assert(s.take(0) =~= Seq::<char>::empty());
    while i < n && t[i] != '.'
        invariant
            n == s.len(),
            s == t@,
            0 <= i <= p,
            p == point_index(s),
            0 <= p <= s.len(),
            p < s.len() ==> s[p] == '.',
            forall|j: int| 0 <= j < p ==> s[j] != '.',
            all_digits(s.take(i as int)),
            whole as int == digits_value(s.take(i as int)),
            places == if p < s.len() { s.skip(p + 1) } else { Seq::<char>::empty() },
        decreases n - i,
    {
        let c = t[i];
        assert(i < p);
        assert(s.take(p)[i as int] == c);
        if !('0' <= c && c <= '9') {
            assert(!all_digits(s.take(p)));
            return None;
        }
        let d: u64 = (c as u32 - '0' as u32) as u64;
        proof {
            assert(s.take(i + 1) =~= s.take(i as int).push(c));
            lemma_digits_value_push(s.take(i as int), c);
        }
        if whole > (u64::MAX - d) / 10 {
            proof {
                let w = whole as int;
                let dd = d as int;
                assert(w * 10 + dd > u64::MAX) by (nonlinear_arith)
                    requires
                        w > (u64::MAX - dd) / 10,
                        0 <= dd <= 9,
                ;
                if all_digits(s.take(p)) && all_digits(places) {
                    assert(s.take(p).take(i + 1) =~= s.take(i + 1));
                    lemma_digits_value_grows(s.take(p), i + 1);
                    let kept = counted_places(places);
                    assert(all_digits(kept));
                    lemma_digits_value_nonneg(kept);
                    lemma_pow10_bounds((8 - kept.len()) as nat);
                    assert(digits_value(kept) * pow10((8 - kept.len()) as nat) >= 0)
                        by (nonlinear_arith)
                        requires
                            digits_value(kept) >= 0,
                            pow10((8 - kept.len()) as nat) >= 1,
                    ;
                    let dw = digits_value(s.take(p));
                    assert(dw * 100_000_000 >= dw) by (nonlinear_arith)
                        requires
                            dw >= 0,
                    ;
                }
            }
            return None;
        }
        whole = whole * 10 + d;
        i = i + 1;
    }
    assert(i == p);
    assert(s.take(p) =~= s.take(i as int));
    // the decimal places
    let start: usize = if i < n { i + 1 } else { i };
    let mut j: usize = start;
    let mut kept: u64 = 0;
    let mut kept_len: u64 = 0;
    assert(places.take(0) =~= Seq::<char>::empty());
    proof {
        reveal_with_fuel(pow10, 2);
    }
    while j < n
        invariant
            n == s.len(),
            s == t@,
            p == i,
            p == point_index(s),
            0 <= i <= n,
            start <= j <= n,
            places.len() == n - start,
            forall|k: int| 0 <= k < places.len() ==> places[k] == s[start + k],
            places == if p < s.len() { s.skip(p + 1) } else { Seq::<char>::empty() },
            all_digits(places.take(j - start)),
            kept_len as int == counted_places(places.take(j - start)).len(),
            kept as int == digits_value(counted_places(places.take(j - start))),
            0 <= kept < pow10(kept_len as nat),
            kept_len <= 8,
        decreases n - j,
    {
        let c = t[j];
        let ghost m = j - start;
        assert(places[m] == c);
        if !('0' <= c && c <= '9') {
            assert(!all_digits(places));
            return None;
        }
        proof {
            assert(places.take(m + 1) =~= places.take(m).push(c));
            assert(places.take(m + 1).take(m) =~= places.take(m));
            lemma_pow10_bounds(kept_len as nat);
        }
        if kept_len < 8 {
            proof {
                assert(counted_places(places.take(m + 1)) =~= counted_places(places.take(m)).push(c));
                lemma_digits_value_push(counted_places(places.take(m)), c);
                assert(pow10((kept_len + 1) as nat) == 10 * pow10(kept_len as nat));
            }
            kept = kept * 10 + (c as u32 - '0' as u32) as u64;
            kept_len = kept_len + 1;
        } else {
            proof {
                assert(counted_places(places.take(m + 1)) =~= counted_places(places.take(m)));
            }
        }
        j = j + 1;
    }
    assert(places.take(n - start) =~= places);
    if i == 0 && n <= 1 {
        return None;
    }
    // scale the kept places to eight
    let mut scaled: u64 = kept;
    let mut k: u64 = kept_len;
    while k < 8
        invariant
            kept_len <= k <= 8,
            scaled as int == kept as int * pow10((k - kept_len) as nat),
            0 <= scaled < pow10(k as nat),
        decreases 8 - k,
    {
        proof {
            lemma_pow10_bounds(k as nat);
            assert(pow10((k + 1 - kept_len) as nat) == 10 * pow10((k - kept_len) as nat));
            assert(pow10((k + 1) as nat) == 10 * pow10(k as nat));
            assert(kept as int * pow10((k + 1 - kept_len) as nat) == scaled as int * 10)
                by (nonlinear_arith)
                requires
                    scaled as int == kept as int * pow10((k - kept_len) as nat),
                    pow10((k + 1 - kept_len) as nat) == 10 * pow10((k - kept_len) as nat),
            ;
        }
        scaled = scaled * 10;
        k = k + 1;
    }
    proof {
        lemma_digits_value_nonneg(s.take(p));
        lemma_pow10_bounds(8);
        reveal_with_fuel(pow10, 9);
        assert(pow10(8) == 100_000_000);
    }
    let total = match whole.checked_mul(100_000_000) {
        Some(w) => w.checked_add(scaled),
        None => None,
    };
    total
}

/// Reads an amount written in decimal with optional thousands separators,
/// as a count of hundred-millionths.
pub fn parse_amount(v: &Vec<char>) -> (r: Option<u64>)
    ensures
        r == amount_value(v@),
{
    parse_decimal(&strip_commas(v))
}

} // verus!
