//! Character classes and small string operations.

use vstd::prelude::*;

use crate::chars::{chars_of, string_from_chars};

verus! {

/// Whether `c` has the Unicode `White_Space` property: tab, line feed,
/// vertical tab, form feed, carriage return, space, next line, no-break
/// space, ogham space mark, the spaces U+2000 to U+200A, the line and
/// paragraph separators, narrow no-break space, medium mathematical space
/// and ideographic space.
pub open spec fn whitespace(c: char) -> bool {
    let v = c as u32;
    ||| 0x09 <= v <= 0x0D
    ||| v == 0x20
    ||| v == 0x85
    ||| v == 0xA0
    ||| v == 0x1680
    ||| 0x2000 <= v <= 0x200A
    ||| v == 0x2028
    ||| v == 0x2029
    ||| v == 0x202F
    ||| v == 0x205F
    ||| v == 0x3000
}

/// Whether `c` is alphabetic or numeric in the Unicode sense.
pub uninterp spec fn alphanumeric(c: char) -> bool;

/// The Unicode lower-case mapping of `s`.
pub uninterp spec fn lowercase(s: Seq<char>) -> Seq<char>;

/// Whether `c` has the Unicode `White_Space` property.
pub fn is_whitespace(c: char) -> (res: bool)
    ensures
        res == whitespace(c),
{
    let v = c as u32;
    (0x09 <= v && v <= 0x0D) || v == 0x20 || v == 0x85 || v == 0xA0 || v == 0x1680 || (0x2000 <= v && v
        <= 0x200A) || v == 0x2028 || v == 0x2029 || v == 0x202F || v == 0x205F || v == 0x3000
}

/// An ASCII letter or digit.
pub open spec fn ascii_alphanumeric(c: char) -> bool {
    ('0' <= c && c <= '9') || ('a' <= c && c <= 'z') || ('A' <= c && c <= 'Z')
}

/// `char::is_alphanumeric`: whether `c` is alphabetic or numeric.  Among
/// ASCII characters those are exactly the letters and the digits; beyond
/// ASCII the Unicode tables decide, and the result is only named.
#[verifier::external_body]
pub(crate) fn is_alphanumeric(c: char) -> (res: bool)
    ensures
        res == alphanumeric(c),
        (c as u32) < 128 ==> res == ascii_alphanumeric(c),
{
    c.is_alphanumeric()
}

/// All characters of `s` are ASCII.
pub open spec fn all_ascii(s: Seq<char>) -> bool {
    forall|i: int| 0 <= i < s.len() ==> (#[trigger] s[i] as u32) < 128
}

/// `str::to_lowercase`: the Unicode lower-case mapping of `s`, which on
/// ASCII text maps `A`..`Z` to `a`..`z` and keeps every other character.
#[verifier::external_body]
pub(crate) fn to_lowercase(s: &str) -> (res: String)
    ensures
        res@ == lowercase(s@),
        all_ascii(s@) ==> res@ == s@.map_values(|c: char| ascii_lower(c)),
{
    s.to_lowercase()
}

/// The number of whitespace characters `s` starts with.
pub open spec fn leading_ws(s: Seq<char>) -> nat
    decreases s.len(),
{
    if s.len() > 0 && whitespace(s[0]) {
        1 + leading_ws(s.drop_first())
    } else {
        0
    }
}

/// The number of whitespace characters `s` ends with.
pub open spec fn trailing_ws(s: Seq<char>) -> nat
    decreases s.len(),
{
    if s.len() > 0 && whitespace(s.last()) {
        1 + trailing_ws(s.drop_last())
    } else {
        0
    }
}

/// `s` without its leading and trailing whitespace.
pub open spec fn trimmed(s: Seq<char>) -> Seq<char> {
    let a = s.skip(leading_ws(s) as int);
    a.take(a.len() - trailing_ws(a))
}

proof fn lemma_leading_ws(s: Seq<char>, i: int)
    requires
        0 <= i <= s.len(),
        forall|j: int| 0 <= j < i ==> whitespace(#[trigger] s[j]),
        i == s.len() || !whitespace(s[i]),
    ensures
        leading_ws(s) == i,
    decreases i,
{
    if i > 0 {
        let t = s.drop_first();
        assert forall|j: int| 0 <= j < i - 1 implies whitespace(#[trigger] t[j]) by {
            assert(t[j] == s[j + 1]);
        }
        if i < s.len() {
            assert(t[i - 1] == s[i]);
        }
        lemma_leading_ws(t, i - 1);
    }
}

proof fn lemma_trailing_ws(s: Seq<char>, i: int)
    requires
        0 <= i <= s.len(),
        forall|j: int| i <= j < s.len() ==> whitespace(#[trigger] s[j]),
        i == 0 || !whitespace(s[i - 1]),
    ensures
        trailing_ws(s) == s.len() - i,
    decreases s.len() - i,
{
    if i < s.len() {
        let t = s.drop_last();
        assert forall|j: int| i <= j < t.len() implies whitespace(#[trigger] t[j]) by {
            assert(t[j] == s[j]);
        }
        if i > 0 {
            assert(t[i - 1] == s[i - 1]);
        }
        assert(whitespace(s[s.len() - 1]));
        lemma_trailing_ws(t, i);
    }
}

/// `str::trim`: `s` without leading and trailing whitespace.
pub fn trim(s: &str) -> (res: String)
    ensures
        res@ == trimmed(s@),
{
    let cs = chars_of(s);
    let n = cs.len();
    let mut a: usize = 0;
    while a < n && is_whitespace(cs[a])
        invariant
            a <= n == cs@.len(),
            forall|j: int| 0 <= j < a ==> whitespace(#[trigger] cs@[j]),
        decreases n - a,
    {
        a = a + 1;
    }
    proof {
        lemma_leading_ws(cs@, a as int);
    }
    let mut b: usize = n;
    while b > a && is_whitespace(cs[b - 1])
        invariant
            a <= b <= n == cs@.len(),
            forall|j: int| b <= j < n ==> whitespace(#[trigger] cs@[j]),
        decreases b,
    {
        b = b - 1;
    }
    let ghost rest = cs@.skip(a as int);
    proof {
        assert forall|j: int| b - a <= j < rest.len() implies whitespace(#[trigger] rest[j]) by {
            assert(rest[j] == cs@[a + j]);
        }
        if b > a {
            assert(rest[b - a - 1] == cs@[b - 1]);
        }
        lemma_trailing_ws(rest, (b - a) as int);
    }
    let mut out: Vec<char> = Vec::new();
    let mut k = a;
    while k < b
        invariant
            a <= k <= b <= n == cs@.len(),
            out@ == cs@.subrange(a as int, k as int),
        decreases b - k,
    {
        out.push(cs[k]);
        proof {
            assert(cs@.subrange(a as int, k + 1) =~= cs@.subrange(a as int, k as int).push(cs@[k as int]));
        }
        k = k + 1;
    }
    proof {
        assert(out@ =~= trimmed(s@));
    }
    string_from_chars(out.as_slice())
}

/// Whether `s` is empty or all whitespace.
pub fn is_blank(s: &str) -> (res: bool)
    ensures
        res == (trimmed(s@).len() == 0),
        res == (forall|j: int| 0 <= j < s@.len() ==> whitespace(#[trigger] s@[j])),
{
    let t = trim(s);
    let r = t.as_str().is_empty();
    proof {
        let cs = s@;
        let a = leading_ws(cs);
        lemma_leading_ws_bound(cs);
        if r {
            // everything is leading or trailing whitespace
            let rest = cs.skip(a as int);
            lemma_trailing_ws_bound(rest);
            lemma_leading_ws_all(cs);
            lemma_trailing_ws_all(rest);
            assert forall|j: int| 0 <= j < cs.len() implies whitespace(#[trigger] cs[j]) by {
                if j >= a {
                    assert(cs[j] == rest[j - a]);
                }
            }
        } else {
            lemma_trailing_ws_bound(cs.skip(a as int));
            if forall|j: int| 0 <= j < cs.len() ==> whitespace(#[trigger] cs[j]) {
                lemma_leading_ws(cs, cs.len() as int);
            }
        }
    }
    r
}

proof fn lemma_leading_ws_bound(s: Seq<char>)
    ensures
        leading_ws(s) <= s.len(),
    decreases s.len(),
{
    if s.len() > 0 && whitespace(s[0]) {
        lemma_leading_ws_bound(s.drop_first());
    }
}

proof fn lemma_trailing_ws_bound(s: Seq<char>)
    ensures
        trailing_ws(s) <= s.len(),
    decreases s.len(),
{
    if s.len() > 0 && whitespace(s.last()) {
        lemma_trailing_ws_bound(s.drop_last());
    }
}

proof fn lemma_leading_ws_all(s: Seq<char>)
    ensures
        forall|j: int| 0 <= j < leading_ws(s) ==> whitespace(#[trigger] s[j]),
    decreases s.len(),
{
    lemma_leading_ws_bound(s);
    if s.len() > 0 && whitespace(s[0]) {
        let t = s.drop_first();
        lemma_leading_ws_all(t);
        assert forall|j: int| 0 <= j < leading_ws(s) implies whitespace(#[trigger] s[j]) by {
            if j > 0 {
                assert(s[j] == t[j - 1]);
            }
        }
    }
}

proof fn lemma_trailing_ws_all(s: Seq<char>)
    ensures
        forall|j: int| s.len() - trailing_ws(s) <= j < s.len() ==> whitespace(#[trigger] s[j]),
    decreases s.len(),
{
    lemma_trailing_ws_bound(s);
    if s.len() > 0 && whitespace(s.last()) {
        let t = s.drop_last();
        lemma_trailing_ws_all(t);
        assert forall|j: int| s.len() - trailing_ws(s) <= j < s.len() implies whitespace(
            #[trigger] s[j],
        ) by {
            if j < s.len() - 1 {
                assert(s[j] == t[j]);
            }
        }
    }
}

/// Whether `a` and `b` hold the same characters.
pub fn str_eq(a: &str, b: &str) -> (res: bool)
    ensures
        res == (a@ == b@),
{
    let x = chars_of(a);
    let y = chars_of(b);
    if x.len() != y.len() {
        proof {
            assert(a@.len() != b@.len());
        }
        return false;
    }
    let n = x.len();
    let mut i: usize = 0;
    while i < n
        invariant
            n == x@.len() == y@.len(),
            x@ == a@,
            y@ == b@,
            i <= n,
            forall|j: int| 0 <= j < i ==> x@[j] == y@[j],
        decreases n - i,
    {
        if x[i] != y[i] {
            proof {
                assert(x@[i as int] != y@[i as int]);
            }
            return false;
        }
        i = i + 1;
    }
    proof {
        assert(x@ =~= y@);
    }
    true
}

/// The ASCII lower-case form of `c`; other characters are unchanged.
pub open spec fn ascii_lower(c: char) -> char {
    if 'A' <= c && c <= 'Z' {
        ((c as u32) + 32) as char
    } else {
        c
    }
}

/// `a` and `b` are equal up to ASCII case.
pub open spec fn eq_ignore_ascii_case(a: Seq<char>, b: Seq<char>) -> bool {
    a.len() == b.len() && forall|i: int| 0 <= i < a.len() ==> ascii_lower(a[i]) == ascii_lower(
        b[i],
    )
}

fn ascii_lower_char(c: char) -> (r: char)
    ensures
        r == ascii_lower(c),
{
    if 'A' <= c && c <= 'Z' {
        let v = (c as u32) + 32;
        char_from_ascii(v)
    } else {
        c
    }
}

fn char_from_ascii(v: u32) -> (c: char)
    requires
        97 <= v <= 122,
    ensures
        c == v as char,
{
    if v == 97 { 'a' } else if v == 98 { 'b' } else if v == 99 { 'c' } else if v == 100 { 'd' }
    else if v == 101 { 'e' } else if v == 102 { 'f' } else if v == 103 { 'g' } else if v == 104 { 'h' }
    else if v == 105 { 'i' } else if v == 106 { 'j' } else if v == 107 { 'k' } else if v == 108 { 'l' }
    else if v == 109 { 'm' } else if v == 110 { 'n' } else if v == 111 { 'o' } else if v == 112 { 'p' }
    else if v == 113 { 'q' } else if v == 114 { 'r' } else if v == 115 { 's' } else if v == 116 { 't' }
    else if v == 117 { 'u' } else if v == 118 { 'v' } else if v == 119 { 'w' } else if v == 120 { 'x' }
    else if v == 121 { 'y' } else { 'z' }
}

/// `str::eq_ignore_ascii_case` on character sequences.
pub fn chars_eq_ignore_ascii_case(a: &Vec<char>, b: &Vec<char>) -> (res: bool)
    ensures
        res == eq_ignore_ascii_case(a@, b@),
{
    if a.len() != b.len() {
        return false;
    }
    let n = a.len();
    let mut i: usize = 0;
    while i < n
        invariant
            n == a@.len() == b@.len(),
            i <= n,
            forall|j: int| 0 <= j < i ==> ascii_lower(a@[j]) == ascii_lower(b@[j]),
        decreases n - i,
    {
        if ascii_lower_char(a[i]) != ascii_lower_char(b[i]) {
            return false;
        }
        i = i + 1;
    }
    true
}


/// Text with whitespace only around it trims to itself.
pub proof fn lemma_trimmed_between(p: Seq<char>, t: Seq<char>, q: Seq<char>)
    requires
        forall|j: int| 0 <= j < p.len() ==> whitespace(#[trigger] p[j]),
        forall|j: int| 0 <= j < q.len() ==> whitespace(#[trigger] q[j]),
        t.len() > 0,
        !whitespace(t[0]),
        !whitespace(t.last()),
    ensures
        trimmed(p + t + q) == t,
{
    let u = p + t + q;
    assert forall|j: int| 0 <= j < p.len() implies whitespace(#[trigger] u[j]) by {
        assert(u[j] == p[j]);
    }
    assert(u[p.len() as int] == t[0]);
    lemma_leading_ws(u, p.len() as int);
    let a = u.skip(p.len() as int);
    assert(a =~= t + q);
    assert forall|j: int| t.len() <= j < a.len() implies whitespace(#[trigger] a[j]) by {
        assert(a[j] == q[j - t.len()]);
    }
    assert(a[t.len() - 1] == t.last());
    lemma_trailing_ws(a, t.len() as int);
    assert(a.take(t.len() as int) =~= t);
}

/// Whitespace alone trims to nothing.
pub proof fn lemma_trimmed_blank(q: Seq<char>)
    requires
        forall|j: int| 0 <= j < q.len() ==> whitespace(#[trigger] q[j]),
    ensures
        trimmed(q).len() == 0,
{
    lemma_leading_ws(q, q.len() as int);
}

} // verus!
