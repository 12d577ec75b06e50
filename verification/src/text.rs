//! Characters and decimal numerals.
use vstd::prelude::*;

verus! {

/// Whether a character above the ASCII range belongs to one of Unicode's
/// number categories (decimal digit, letter number, other number).
pub uninterp spec fn unicode_numeric(c: char) -> bool;

/// Whether a character above the ASCII range has Unicode's `White_Space`
/// property.
pub uninterp spec fn unicode_white_space(c: char) -> bool;

/// The characters that count as numeric: the ten ASCII digits, and beyond
/// ASCII whatever Unicode classes as a number.
pub open spec fn is_numeric_char(c: char) -> bool {
    if c <= '\x7f' {
        is_digit_char(c)
    } else {
        unicode_numeric(c)
    }
}

/// The characters that count as whitespace: space, tab, line feed, vertical
/// tab, form feed and carriage return, and beyond ASCII whatever Unicode
/// marks as white space.
pub open spec fn is_whitespace_char(c: char) -> bool {
    if c <= '\x7f' {
        c == ' ' || ('\x09' <= c && c <= '\x0d')
    } else {
        unicode_white_space(c)
    }
}

/// One of the ten ASCII digits.
pub open spec fn is_digit_char(c: char) -> bool {
    '0' <= c && c <= '9'
}

/// `char::is_numeric` of the standard library. Believed, not proved: ASCII
/// characters are numeric exactly when they are digits, and for any other
/// character the answer is a fixed property of that character.
pub assume_specification[ char::is_numeric ](c: char) -> (r: bool)
    ensures
        r == is_numeric_char(c),
        c > '\x7f' ==> r == unicode_numeric(c),
;

/// `char::is_whitespace` of the standard library. Believed, not proved: the
/// ASCII whitespace characters are space and the five controls from tab to
/// carriage return, and for any other character the answer is a fixed
/// property of that character.
pub assume_specification[ char::is_whitespace ](c: char) -> (r: bool)
    ensures
        r == is_whitespace_char(c),
        c > '\x7f' ==> r == unicode_white_space(c),
;

/// The characters of a string, in order.
pub fn chars_of(s: &str) -> (v: Vec<char>)
    ensures
        v@ == s@,
{
    let mut v: Vec<char> = Vec::new();
    let it = s.chars();
    for c in iter: it
        invariant
            iter.seq() == s@,
            v@ == s@.take(iter.index()),
    {
        v.push(c);
    }
    v
}

/// The index of the first `c` in `s`, or the length of `s` if there is none.
pub open spec fn first_position(s: Seq<char>, c: char) -> int
    decreases s.len(),
{
    if s.len() == 0 || s[0] == c {
        0
    } else {
        1 + first_position(s.skip(1), c)
    }
}

/// `first_position` lies within the sequence, no earlier element is `c`, and
/// the element it points at is.
pub proof fn lemma_first_position(s: Seq<char>, c: char)
    ensures
        0 <= first_position(s, c) <= s.len(),
        forall|j: int| 0 <= j < first_position(s, c) ==> s[j] != c,
        first_position(s, c) < s.len() ==> s[first_position(s, c)] == c,
    decreases s.len(),
{
    if s.len() == 0 || s[0] == c {
    } else {
        let rest = s.skip(1);
        lemma_first_position(rest, c);
        assert forall|j: int| 0 <= j < first_position(s, c) implies s[j] != c by {
            if j > 0 {
                assert(rest[j - 1] == s[j]);
            }
        }
    }
}

/// An index with no `c` before it, which holds `c` or is the end, is the
/// first position of `c`.
pub proof fn lemma_first_position_is(s: Seq<char>, c: char, k: int)
    requires
        0 <= k <= s.len(),
        forall|j: int| 0 <= j < k ==> s[j] != c,
        k < s.len() ==> s[k] == c,
    ensures
        first_position(s, c) == k,
{
    lemma_first_position(s, c);
}

/// The sequence without the whitespace it begins with.
pub open spec fn trim_start(s: Seq<char>) -> Seq<char>
    decreases s.len(),
{
    if s.len() > 0 && is_whitespace_char(s[0]) {
        trim_start(s.skip(1))
    } else {
        s
    }
}

/// The sequence without the whitespace it ends with.
pub open spec fn trim_end(s: Seq<char>) -> Seq<char>
    decreases s.len(),
{
    if s.len() > 0 && is_whitespace_char(s.last()) {
        trim_end(s.drop_last())
    } else {
        s
    }
}

/// The sequence without the whitespace around it.
pub open spec fn trimmed(s: Seq<char>) -> Seq<char> {
    trim_end(trim_start(s))
}

/// Whitespace up to an index that holds none, or up to the end, is what
/// `trim_start` removes.
pub proof fn lemma_trim_start_is(s: Seq<char>, a: int)
    requires
        0 <= a <= s.len(),
        forall|j: int| 0 <= j < a ==> is_whitespace_char(s[j]),
        a < s.len() ==> !is_whitespace_char(s[a]),
    ensures
        trim_start(s) == s.skip(a),
    decreases a,
{
    if a == 0 {
        assert(s.skip(0) =~= s);
    } else {
        let rest = s.skip(1);
        assert forall|j: int| 0 <= j < a - 1 implies is_whitespace_char(rest[j]) by {
            assert(rest[j] == s[j + 1]);
        }
        lemma_trim_start_is(rest, a - 1);
        assert(rest.skip(a - 1) =~= s.skip(a));
    }
}

/// Whitespace from an index on, with none just before it, is what `trim_end`
/// removes.
pub proof fn lemma_trim_end_is(s: Seq<char>, b: int)
    requires
        0 <= b <= s.len(),
        forall|j: int| b <= j < s.len() ==> is_whitespace_char(s[j]),
        b > 0 ==> !is_whitespace_char(s[b - 1]),
    ensures
        trim_end(s) == s.take(b),
    decreases s.len() - b,
{
    if b == s.len() {
        assert(s.take(b) =~= s);
    } else {
        let init = s.drop_last();
        lemma_trim_end_is(init, b);
        assert(init.take(b) =~= s.take(b));
    }
}

/// The bounds of a slice without the whitespace around it.
pub fn trim_bounds(s: &[char]) -> (r: (usize, usize))
    ensures
        r.0 <= r.1 <= s@.len(),
        s@.subrange(r.0 as int, r.1 as int) == trimmed(s@),
{
    let n = s.len();
    let mut a: usize = 0;
    while a < n && s[a].is_whitespace()
        invariant
            a <= n,
            n == s@.len(),
            forall|j: int| 0 <= j < a ==> is_whitespace_char(s@[j]),
        decreases n - a,
    {
        a += 1;
    }
    let mut b: usize = n;
    while b > a && s[b - 1].is_whitespace()
        invariant
            a <= b <= n,
            n == s@.len(),
            forall|j: int| b <= j < n ==> is_whitespace_char(s@[j]),
        decreases b,
    {
        b -= 1;
    }
    proof {
        let rest = s@.skip(a as int);
        lemma_trim_start_is(s@, a as int);
        assert forall|j: int| b - a <= j < rest.len() implies is_whitespace_char(rest[j]) by {
            assert(rest[j] == s@[j + a]);
        }
        lemma_trim_end_is(rest, b - a);
        assert(rest.take(b - a) =~= s@.subrange(a as int, b as int));
    }
    (a, b)
}

/// Every character of `s` is an ASCII digit.
pub open spec fn all_digits(s: Seq<char>) -> bool {
    forall|i: int| 0 <= i < s.len() ==> is_digit_char(#[trigger] s[i])
}

/// The value of an ASCII digit.
pub open spec fn digit_value(c: char) -> nat {
    (c as nat - '0' as nat) as nat
}

/// The number that a sequence of ASCII digits writes in base ten; the empty
/// sequence writes zero.
pub open spec fn decimal_value(s: Seq<char>) -> nat
    decreases s.len(),
{
    if s.len() == 0 {
        0
    } else {
        10 * decimal_value(s.drop_last()) + digit_value(s.last())
    }
}

/// What an unsigned numeral denotes: an optional `+`, then at least one
/// ASCII digit, with a value of at most `max`. Anything else denotes nothing.
pub open spec fn unsigned_of(s: Seq<char>, max: nat) -> Option<nat> {
    let digits = if s.len() > 0 && s[0] == '+' {
        s.skip(1)
    } else {
        s
    };
    if digits.len() > 0 && all_digits(digits) && decimal_value(digits) <= max {
        Some(decimal_value(digits))
    } else {
        None
    }
}

/// Ten to the power `n`.
pub open spec fn pow10(n: nat) -> nat
    decreases n,
{
    if n == 0 {
        1
    } else {
        10 * pow10((n - 1) as nat)
    }
}

/// The digits of `a` followed by those of `b` write the value of `a`, shifted
/// by the length of `b`, plus the value of `b`.
pub proof fn lemma_decimal_value_concat(a: Seq<char>, b: Seq<char>)
    ensures
        decimal_value(a + b) == decimal_value(a) * pow10(b.len()) + decimal_value(b),
    decreases b.len(),
{
    if b.len() == 0 {
        assert(a + b =~= a);
        assert(pow10(0) == 1);
        assert(decimal_value(b) == 0);
    } else {
        let init = b.drop_last();
        lemma_decimal_value_concat(a, init);
        assert((a + b).drop_last() =~= a + init);
        assert((a + b).last() == b.last());
        let shifted = pow10(init.len());
        assert(pow10(b.len()) == 10 * shifted);
        assert(decimal_value(a + b) == 10 * decimal_value(a + init) + digit_value(b.last()));
        assert(decimal_value(b) == 10 * decimal_value(init) + digit_value(b.last()));
        assert(10 * (decimal_value(a) * shifted + decimal_value(init)) == decimal_value(a) * (10
            * shifted) + 10 * decimal_value(init)) by (nonlinear_arith);
    }
}

/// Whether every character of a slice is an ASCII digit.
pub fn is_all_digits(s: &[char]) -> (r: bool)
    ensures
        r == all_digits(s@),
{
    let n = s.len();
    let mut i: usize = 0;
    while i < n
        invariant
            i <= n,
            n == s@.len(),
            forall|j: int| 0 <= j < i ==> is_digit_char(#[trigger] s@[j]),
        decreases n - i,
    {
        if !(s[i] >= '0' && s[i] <= '9') {
            assert(!is_digit_char(s@[i as int]));
            return false;
        }
        i += 1;
    }
    true
}

/// A numeral never writes less than one of its prefixes.
pub proof fn lemma_decimal_value_prefix(s: Seq<char>, n: int)
    requires
        0 <= n <= s.len(),
    ensures
        decimal_value(s.take(n)) <= decimal_value(s),
    decreases s.len() - n,
{
    if n == s.len() {
        assert(s.take(n) =~= s);
    } else {
        lemma_decimal_value_prefix(s.drop_last(), n);
        assert(s.drop_last().take(n) =~= s.take(n));
    }
}

/// Reads an unsigned numeral of at most `max`.
pub fn parse_unsigned(s: &[char], max: u64) -> (r: Option<u64>)
    ensures
        match r {
            Some(v) => unsigned_of(s@, max as nat) == Some(v as nat),
            None => unsigned_of(s@, max as nat) is None,
        },
{
    let n = s.len();
    let start: usize = if n > 0 && s[0] == '+' {
        1
    } else {
        0
    };
    if start == n {
        return None;
    }
    let ghost digits = s@.skip(start as int);
    proof {
        assert(s@.skip(0) =~= s@);
    }
    let mut acc: u64 = 0;
    let mut i: usize = start;
    while i < n
        invariant
            start <= i <= n,
            n == s@.len(),
            digits == s@.skip(start as int),
            digits == (if s@.len() > 0 && s@[0] == '+' {
                s@.skip(1)
            } else {
                s@
            }),
            all_digits(digits.take(i - start)),
            acc == decimal_value(digits.take(i - start)),
            acc <= max,
        decreases n - i,
    {
        let c = s[i];
        proof {
            assert(digits[i - start] == c);
            assert(digits.take(i - start + 1).drop_last() =~= digits.take(i - start));
            lemma_decimal_value_prefix(digits, i - start + 1);
        }
        if !(c >= '0' && c <= '9') {
            assert(!is_digit_char(digits[i - start]));
            return None;
        }
        let d: u64 = (c as u64) - ('0' as u64);
        assert(decimal_value(digits.take(i - start + 1)) == 10 * acc + d);
        if d > max || acc > (max - d) / 10 {
            return None;
        }
        acc = acc * 10 + d;
        i += 1;
    }
    proof {
        assert(digits.take(n - start) =~= digits);
    }
    Some(acc)
}

} // verus!
