//! Decimal numerals: writing and reading unsigned integers in base ten.

use vstd::prelude::*;

verus! {

/// The character of decimal digit `d`.
pub open spec fn digit_char(d: nat) -> char {
    if d == 0 { '0' }
    else if d == 1 { '1' }
    else if d == 2 { '2' }
    else if d == 3 { '3' }
    else if d == 4 { '4' }
    else if d == 5 { '5' }
    else if d == 6 { '6' }
    else if d == 7 { '7' }
    else if d == 8 { '8' }
    else { '9' }
}

/// The decimal numeral of `n`, without leading zeros.
pub open spec fn decimal(n: nat) -> Seq<char>
    decreases n,
{
    if n < 10 {
        seq![digit_char(n)]
    } else {
        decimal(n / 10).push(digit_char(n % 10))
    }
}

/// The digit that character `c` stands for, if it is an ASCII digit.
pub open spec fn digit_value(c: char) -> Option<nat> {
    if '0' <= c && c <= '9' {
        Some((c as nat - '0' as nat) as nat)
    } else {
        None
    }
}

/// All characters of `s` are ASCII digits.
pub open spec fn all_digits(s: Seq<char>) -> bool {
    forall|i: int| 0 <= i < s.len() ==> #[trigger] digit_value(s[i]) is Some
}

/// The number that the digits of `s` stand for (most significant first).
pub open spec fn digits_value(s: Seq<char>) -> nat
    decreases s.len(),
{
    if s.len() == 0 {
        0
    } else {
        digits_value(s.drop_last()) * 10 + match digit_value(s.last()) {
            Some(d) => d,
            None => 0,
        }
    }
}

fn digit_of(d: usize) -> (c: char)
    requires
        d < 10,
    ensures
        c == digit_char(d as nat),
{
    if d == 0 { '0' }
    else if d == 1 { '1' }
    else if d == 2 { '2' }
    else if d == 3 { '3' }
    else if d == 4 { '4' }
    else if d == 5 { '5' }
    else if d == 6 { '6' }
    else if d == 7 { '7' }
    else if d == 8 { '8' }
    else { '9' }
}

/// The decimal digits of `n`.
pub fn decimal_chars(n: usize) -> (res: Vec<char>)
    ensures
        res@ == decimal(n as nat),
{
    decimal_chars_u64(n as u64)
}

/// The decimal digits of `n`.
pub fn decimal_chars_u64(n: u64) -> (res: Vec<char>)
    ensures
        res@ == decimal(n as nat),
    decreases n,
{
    if n < 10 {
        let mut v: Vec<char> = Vec::new();
        v.push(digit_of(n as usize));
        v
    } else {
        let mut v = decimal_chars_u64(n / 10);
        v.push(digit_of((n % 10) as usize));
        v
    }
}

/// The decimal numeral of `i`, with a minus sign when it is negative.
pub open spec fn signed_decimal(i: int) -> Seq<char> {
    if i < 0 {
        seq!['-'] + decimal((-i) as nat)
    } else {
        decimal(i as nat)
    }
}

/// The decimal numeral of `i`, with a minus sign when it is negative.
pub fn signed_decimal_chars(i: i64) -> (res: Vec<char>)
    ensures
        res@ == signed_decimal(i as int),
{
    if i < 0 {
        let m: u64 = ((-(i + 1)) as u64) + 1;
        let mut v: Vec<char> = Vec::new();
        v.push('-');
        let mut d = decimal_chars_u64(m);
        v.append(&mut d);
        v
    } else {
        decimal_chars_u64(i as u64)
    }
}

/// The value a string of decimal digits stands for, read as
/// `usize::from_str` reads it: an optional `+`, then at least one ASCII
/// digit, the value fitting in `usize`.
pub open spec fn parse_usize(s: Seq<char>) -> Option<nat> {
    let d = if s.len() > 0 && s[0] == '+' {
        s.drop_first()
    } else {
        s
    };
    if d.len() > 0 && all_digits(d) && digits_value(d) <= usize::MAX {
        Some(digits_value(d))
    } else {
        None
    }
}

proof fn lemma_digits_value_grows(s: Seq<char>, k: int)
    requires
        all_digits(s),
        0 <= k <= s.len(),
    ensures
        digits_value(s.take(k)) <= digits_value(s),
    decreases s.len() - k,
{
    if k < s.len() {
        lemma_digits_value_grows(s, k + 1);
        assert(s.take(k + 1).drop_last() =~= s.take(k));
        assert(digit_value(s.take(k + 1).last()) is Some) by {
            assert(s.take(k + 1).last() == s[k]);
        }
    } else {
        assert(s.take(k) =~= s);
    }
}

/// `usize::from_str`: the value of a decimal numeral, or `None` when `s`
/// is not one or the value does not fit.
pub fn parse_usize_chars(s: &Vec<char>) -> (res: Option<usize>)
    ensures
        match res {
            Some(v) => parse_usize(s@) == Some(v as nat),
            None => parse_usize(s@) is None,
        },
{
    let n = s.len();
    let start: usize = if n > 0 && s[0] == '+' {
        1
    } else {
        0
    };
    let ghost d = if s@.len() > 0 && s@[0] == '+' {
        s@.drop_first()
    } else {
        s@
    };
    proof {
        assert(d =~= s@.skip(start as int));
    }
    if start >= n {
        return None;
    }
    let mut v: usize = 0;
    let mut k = start;
    proof {
        assert(d.take(0) =~= Seq::<char>::empty());
    }
    while k < n
        invariant
            start <= k <= n == s@.len(),
            d =~= s@.skip(start as int),
            d == (if s@.len() > 0 && s@[0] == '+' {
                s@.drop_first()
            } else {
                s@
            }),
            all_digits(d.take(k - start)),
            v == digits_value(d.take(k - start)),
        decreases n - k,
    {
        let c = s[k];
        proof {
            assert(d[k - start] == c);
            assert(d.take(k - start + 1).drop_last() =~= d.take(k - start));
            assert(d.take(k - start + 1).last() == c);
        }
        if c < '0' || c > '9' {
            proof {
                assert(digit_value(d[k - start]) is None);
                assert(!all_digits(d));
                assert(parse_usize(s@) is None);
            }
            return None;
        }
        let dv = ((c as u32) - ('0' as u32)) as usize;
        proof {
            assert(digit_value(c) == Some(dv as nat));
        }
        match v.checked_mul(10) {
            Some(m) => match m.checked_add(dv) {
                Some(x) => {
                    v = x;
                },
                None => {
                    proof {
                        lemma_overflow(d, (k - start) as int);
                        assert(parse_usize(s@) is None);
                    }
                    return None;
                },
            },
            None => {
                proof {
                    lemma_overflow(d, (k - start) as int);
                }
                return None;
            },
        }
        proof {
            assert forall|j: int| 0 <= j < d.take(k - start + 1).len() implies #[trigger] digit_value(
                d.take(k - start + 1)[j],
            ) is Some by {
                if j < k - start {
                    assert(d.take(k - start + 1)[j] == d.take(k - start)[j]);
                }
            }
        }
        k = k + 1;
    }
    proof {
        assert(d.take(n - start) =~= d);
    }
    Some(v)
}

/// When the value up to digit `k` already overflows, so does the whole value.
proof fn lemma_overflow(d: Seq<char>, k: int)
    requires
        0 <= k < d.len(),
        all_digits(d.take(k)),
        digit_value(d[k]) is Some,
        digits_value(d.take(k)) * 10 + digit_value(d[k])->0 > usize::MAX,
    ensures
        !(all_digits(d) && digits_value(d) <= usize::MAX),
{
    if all_digits(d) {
        lemma_digits_value_grows(d, k + 1);
        assert(d.take(k + 1).drop_last() =~= d.take(k));
        assert(d.take(k + 1).last() == d[k]);
    }
}


proof fn lemma_digit_char(d: nat)
    requires
        d < 10,
    ensures
        digit_value(digit_char(d)) == Some(d),
        (digit_char(d) as int) >= 0x30 && (digit_char(d) as int) <= 0x39,
{
}

/// A numeral reads back as the number it was written for.
pub proof fn lemma_decimal_value(n: nat)
    ensures
        decimal(n).len() > 0,
        all_digits(decimal(n)),
        digits_value(decimal(n)) == n,
        forall|i: int| 0 <= i < decimal(n).len() ==> 0x30 <= (#[trigger] decimal(n)[i] as int) <= 0x39,
    decreases n,
{
    if n < 10 {
        lemma_digit_char(n);
        let d = decimal(n);
        assert(d.drop_last() =~= Seq::<char>::empty());
        assert(digits_value(d.drop_last()) == 0);
        assert(d.last() == digit_char(n));
        assert(digits_value(d) == digits_value(d.drop_last()) * 10 + n);
    } else {
        lemma_decimal_value(n / 10);
        lemma_digit_char(n % 10);
        let d = decimal(n);
        assert(d.drop_last() =~= decimal(n / 10));
        assert(d.last() == digit_char(n % 10));
        assert((n / 10) * 10 + n % 10 == n) by (nonlinear_arith);
        assert(digits_value(d) == digits_value(d.drop_last()) * 10 + n % 10);
        assert forall|i: int| 0 <= i < d.len() implies #[trigger] digit_value(d[i]) is Some by {
            if i < d.len() - 1 {
                assert(d[i] == decimal(n / 10)[i]);
            }
        }
        assert forall|i: int| 0 <= i < d.len() implies 0x30 <= (#[trigger] d[i] as int) <= 0x39 by {
            if i < d.len() - 1 {
                assert(d[i] == decimal(n / 10)[i]);
            }
        }
    }
}

/// `usize::from_str` reads a numeral back as its number.
pub proof fn lemma_parse_decimal(n: nat)
    requires
        n <= usize::MAX,
    ensures
        parse_usize(decimal(n)) == Some(n),
{
    lemma_decimal_value(n);
    assert(decimal(n)[0] != '+') by {
        assert(0x30 <= (decimal(n)[0] as int) <= 0x39);
    }
}

} // verus!
