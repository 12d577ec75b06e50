//! Durations written as an amount and a unit, such as `2 hrs` or `50 mins`.
use crate::text::{
    all_digits, chars_of, decimal_value, first_position, is_all_digits, is_digit_char,
    is_numeric_char, is_whitespace_char, lemma_decimal_value_concat, lemma_first_position_is,
    lemma_trim_end_is, lemma_trim_start_is, parse_unsigned, pow10, trim_bounds, trimmed,
};
use vstd::arithmetic::div_mod::{lemma_div_denominator, lemma_hoist_over_denominator};
use vstd::prelude::*;
use vstd::slice::slice_subrange;

verus! {

/// The characters that an amount is scanned from: numeric ones and the point.
pub open spec fn is_amount_char(c: char) -> bool {
    is_numeric_char(c) || c == '.'
}

/// How many characters at the start of the text belong to the amount: all up
/// to the first that is neither numeric nor a point.
pub open spec fn amount_len(text: Seq<char>) -> int
    decreases text.len(),
{
    if text.len() == 0 || !is_amount_char(text[0]) {
        0
    } else {
        1 + amount_len(text.skip(1))
    }
}

/// An index with only amount characters before it, which holds another
/// character or is the end, is where the amount ends.
pub proof fn lemma_amount_len_is(text: Seq<char>, k: int)
    requires
        0 <= k <= text.len(),
        forall|j: int| 0 <= j < k ==> is_amount_char(text[j]),
        k < text.len() ==> !is_amount_char(text[k]),
    ensures
        amount_len(text) == k,
    decreases k,
{
    if k > 0 {
        let rest = text.skip(1);
        assert forall|j: int| 0 <= j < k - 1 implies is_amount_char(rest[j]) by {
            assert(rest[j] == text[j + 1]);
        }
        lemma_amount_len_is(rest, k - 1);
    }
}

/// The digits of an amount before its point.
pub open spec fn whole_part(amount: Seq<char>) -> Seq<char> {
    amount.take(first_position(amount, '.'))
}

/// The digits of an amount after its point; none where it has no point.
pub open spec fn fraction_part(amount: Seq<char>) -> Seq<char> {
    let dot = first_position(amount, '.');
    if dot < amount.len() {
        amount.skip(dot + 1)
    } else {
        Seq::empty()
    }
}

/// An amount is a decimal numeral: ASCII digits with at most one point among
/// them, and at least one digit.
pub open spec fn is_decimal(amount: Seq<char>) -> bool {
    &&& all_digits(whole_part(amount))
    &&& all_digits(fraction_part(amount))
    &&& whole_part(amount).len() + fraction_part(amount).len() > 0
}

/// The unit is `hr` or `hrs`, in either case of each letter.
pub open spec fn is_hours_unit(unit: Seq<char>) -> bool {
    &&& unit.len() == 2 || unit.len() == 3
    &&& unit[0] == 'h' || unit[0] == 'H'
    &&& unit[1] == 'r' || unit[1] == 'R'
    &&& unit.len() == 3 ==> unit[2] == 's' || unit[2] == 'S'
}

/// The number of minutes in one of the unit: sixty for hours. Every other
/// unit, and none at all, counts as minutes.
pub open spec fn unit_factor(unit: Seq<char>) -> nat {
    if is_hours_unit(unit) {
        60
    } else {
        1
    }
}

/// A decimal amount times a factor, rounded toward zero.
pub open spec fn scaled_amount(amount: Seq<char>, factor: nat) -> nat {
    let digits = whole_part(amount) + fraction_part(amount);
    (decimal_value(digits) * factor) / pow10(fraction_part(amount).len())
}

/// The unit of a duration text: what follows the character at which the
/// amount ends, without the whitespace around it. That character itself is
/// passed over; where the amount ends with the text, there is no unit.
pub open spec fn unit_text(text: Seq<char>) -> Seq<char> {
    let n = amount_len(text);
    if n < text.len() {
        trimmed(text.skip(n + 1))
    } else {
        Seq::empty()
    }
}

/// The minutes that a duration text denotes. The amount is what the text
/// begins with, up to the first character that is neither numeric nor a
/// point. A text whose amount is no decimal numeral denotes nothing.
pub open spec fn duration_minutes(text: Seq<char>) -> Option<nat> {
    let amount = text.take(amount_len(text));
    if is_decimal(amount) {
        Some(scaled_amount(amount, unit_factor(unit_text(text))))
    } else {
        None
    }
}

/// A number of minutes as a `usize`: itself where it fits, else the largest.
pub open spec fn saturated(minutes: nat) -> usize {
    if minutes <= usize::MAX {
        minutes as usize
    } else {
        usize::MAX
    }
}

/// The minutes that a duration text denotes, held to the range of `usize`.
pub open spec fn duration_in_minutes(text: Seq<char>) -> Option<usize> {
    match duration_minutes(text) {
        Some(minutes) => Some(saturated(minutes)),
        None => None,
    }
}

/// One digit more at the front of a fraction: its scaled value follows from
/// the digit and the scaled value of the rest.
proof fn lemma_carry_step(d: nat, p: nat, v: nat, f: nat)
    requires
        p > 0,
    ensures
        ((d * p + v) * f) / (p * 10) == (f * d + (v * f) / p) / 10,
{
    let x = ((d * p + v) * f) as int;
    assert(x == v * f + (f * d) * p) by (nonlinear_arith)
        requires
            x == (d * p + v) * f,
    ;
    lemma_hoist_over_denominator((v * f) as int, (f * d) as int, p);
    lemma_div_denominator(x, p as int, 10);
}

/// The whole part of an amount scales without rounding.
proof fn lemma_scale_split(w: nat, p: nat, v: nat, f: nat)
    requires
        p > 0,
    ensures
        ((w * p + v) * f) / p == w * f + (v * f) / p,
{
    let x = ((w * p + v) * f) as int;
    assert(x == v * f + (w * f) * p) by (nonlinear_arith)
        requires
            x == (w * p + v) * f,
    ;
    lemma_hoist_over_denominator((v * f) as int, (w * f) as int, p);
}

/// Ten to any power is positive.
proof fn lemma_pow10_positive(n: nat)
    ensures
        pow10(n) > 0,
    decreases n,
{
    if n > 0 {
        lemma_pow10_positive((n - 1) as nat);
    }
}

/// The digits after the point, times the factor, rounded toward zero.
fn scaled_fraction(fraction: &[char], factor: usize) -> (r: usize)
    requires
        all_digits(fraction@),
        1 <= factor <= 60,
    ensures
        r == (decimal_value(fraction@) * (factor as nat)) / pow10(fraction@.len()),
        r < factor,
{
    let k = fraction.len();
    let mut carry: usize = 0;
    let mut j: usize = k;
    proof {
        assert(fraction@.skip(k as int) =~= Seq::<char>::empty());
    }
    while j > 0
        invariant
            j <= k,
            k == fraction@.len(),
            all_digits(fraction@),
            1 <= factor <= 60,
            carry < factor,
            carry == (decimal_value(fraction@.skip(j as int)) * (factor as nat)) / pow10(
                (k - j) as nat,
            ),
        decreases j,
    {
        j -= 1;
        let c = fraction[j];
        assert(is_digit_char(fraction@[j as int]));
        let d: usize = (c as usize) - ('0' as usize);
        proof {
            let rest = fraction@.skip(j + 1);
            let one = seq![c];
            assert(one + rest =~= fraction@.skip(j as int));
            assert(one.drop_last() =~= Seq::<char>::empty());
            assert(decimal_value(one.drop_last()) == 0);
            assert(decimal_value(one) == d);
            lemma_decimal_value_concat(one, rest);
            let p = pow10((k - j - 1) as nat);
            lemma_pow10_positive((k - j - 1) as nat);
            lemma_carry_step(d as nat, p, decimal_value(rest), factor as nat);
            assert(pow10((k - j) as nat) == p * 10);
            assert(factor * d <= 9 * factor <= 540) by (nonlinear_arith)
                requires
                    factor <= 60,
                    d <= 9,
            ;
        }
        carry = (factor * d + carry) / 10;
    }
    proof {
        assert(fraction@.skip(0) =~= fraction@);
    }
    carry
}

/// Whether a slice holds the unit of hours.
fn is_hours(unit: &[char]) -> (r: bool)
    ensures
        r == is_hours_unit(unit@),
{
    let n = unit.len();
    (n == 2 || n == 3) && (unit[0] == 'h' || unit[0] == 'H') && (unit[1] == 'r' || unit[1] == 'R')
        && (n == 2 || unit[2] == 's' || unit[2] == 'S')
}

/// Reads a duration and gives it in minutes. A value beyond `usize::MAX` is
/// given as `usize::MAX`.
pub fn parse_duration(text: &str) -> (r: Option<usize>)
    ensures
        r == duration_in_minutes(text@),
{
    let chars = chars_of(text);
    let len = chars.len();
    let mut n: usize = 0;
    while n < len && (chars[n].is_numeric() || chars[n] == '.')
        invariant
            n <= len,
            len == chars@.len(),
            forall|j: int| 0 <= j < n ==> is_amount_char(chars@[j]),
        decreases len - n,
    {
        n += 1;
    }
    let ghost amount = text@.take(n as int);
    proof {
        lemma_amount_len_is(text@, n as int);
    }
    let mut dot: usize = 0;
    while dot < n && chars[dot] != '.'
        invariant
            dot <= n <= len,
            len == chars@.len(),
            forall|j: int| 0 <= j < dot ==> chars@[j] != '.',
        decreases n - dot,
    {
        dot += 1;
    }
    proof {
        lemma_first_position_is(amount, '.', dot as int);
    }
    let whole = slice_subrange(chars.as_slice(), 0, dot);
    let fraction = if dot < n {
        slice_subrange(chars.as_slice(), dot + 1, n)
    } else {
        slice_subrange(chars.as_slice(), n, n)
    };
    proof {
        assert(whole@ =~= whole_part(amount));
        assert(fraction@ =~= fraction_part(amount));
    }
    if whole.len() + fraction.len() == 0 || !is_all_digits(whole) || !is_all_digits(fraction) {
        return None;
    }
    let factor: usize = if n < len {
        let rest = slice_subrange(chars.as_slice(), n + 1, len);
        proof {
            assert(rest@ =~= text@.skip(n + 1));
        }
        let (a, b) = trim_bounds(rest);
        if is_hours(slice_subrange(rest, a, b)) {
            60
        } else {
            1
        }
    } else {
        1
    };
    let part = scaled_fraction(fraction, factor);
    let units = if dot == 0 {
        Some(0)
    } else {
        parse_unsigned(whole, usize::MAX as u64)
    };
    proof {
        lemma_decimal_value_concat(whole@, fraction@);
        lemma_pow10_positive(fraction@.len());
        lemma_scale_split(
            decimal_value(whole@),
            pow10(fraction@.len()),
            decimal_value(fraction@),
            factor as nat,
        );
    }
    match units {
        None => Some(usize::MAX),
        Some(w) => {
            let w = w as usize;
            if w > (usize::MAX - part) / factor {
                Some(usize::MAX)
            } else {
                Some(w * factor + part)
            }
        },
    }
}

/// The text of an amount: the digits before the point and, where there is a
/// point, the point and the digits after it.
pub open spec fn amount_text(whole: Seq<char>, fraction: Seq<char>, point: bool) -> Seq<char> {
    if point {
        whole + seq!['.'] + fraction
    } else {
        whole
    }
}

/// A decimal amount alone denotes that many minutes, rounded toward zero.
pub proof fn lemma_duration_of_amount(whole: Seq<char>, fraction: Seq<char>, point: bool)
    requires
        all_digits(whole),
        all_digits(fraction),
        whole.len() + fraction.len() > 0,
        !point ==> fraction.len() == 0,
    ensures
        duration_minutes(amount_text(whole, fraction, point)) == Some(
            decimal_value(whole + fraction) / pow10(fraction.len()),
        ),
{
    let amount = amount_text(whole, fraction, point);
    lemma_amount_ends(whole, fraction, point, Seq::empty());
    assert(amount + Seq::<char>::empty() =~= amount);
    assert(decimal_value(whole + fraction) * 1 == decimal_value(whole + fraction));
}

/// A decimal amount, a character that is neither numeric nor a point, and a
/// unit denote the amount in that unit, rounded toward zero: times sixty
/// where the unit is `hr` or `hrs`, whitespace around it set aside, and as it
/// stands for every other unit and for none.
pub proof fn lemma_duration_of_amount_and_unit(
    whole: Seq<char>,
    fraction: Seq<char>,
    point: bool,
    stop: char,
    unit: Seq<char>,
)
    requires
        all_digits(whole),
        all_digits(fraction),
        whole.len() + fraction.len() > 0,
        !point ==> fraction.len() == 0,
        !is_amount_char(stop),
    ensures
        is_hours_unit(trimmed(unit)) ==> duration_minutes(
            amount_text(whole, fraction, point) + seq![stop] + unit,
        ) == Some((decimal_value(whole + fraction) * 60) / pow10(fraction.len())),
        !is_hours_unit(trimmed(unit)) ==> duration_minutes(
            amount_text(whole, fraction, point) + seq![stop] + unit,
        ) == Some(decimal_value(whole + fraction) / pow10(fraction.len())),
{
    let amount = amount_text(whole, fraction, point);
    let text = amount + seq![stop] + unit;
    lemma_amount_ends(whole, fraction, point, seq![stop] + unit);
    assert(amount + (seq![stop] + unit) =~= text);
    assert(text.skip(amount.len() as int + 1) =~= unit);
    assert(decimal_value(whole + fraction) * 1 == decimal_value(whole + fraction));
}

/// Where a decimal amount is followed by nothing, or by a character that is
/// neither numeric nor a point, the amount of the text is that amount.
proof fn lemma_amount_ends(whole: Seq<char>, fraction: Seq<char>, point: bool, rest: Seq<char>)
    requires
        all_digits(whole),
        all_digits(fraction),
        !point ==> fraction.len() == 0,
        rest.len() > 0 ==> !is_amount_char(rest[0]),
    ensures
        amount_len(amount_text(whole, fraction, point) + rest) == amount_text(
            whole,
            fraction,
            point,
        ).len(),
        whole_part(amount_text(whole, fraction, point)) == whole,
        fraction_part(amount_text(whole, fraction, point)) == fraction,
        (amount_text(whole, fraction, point) + rest).take(
            amount_text(whole, fraction, point).len() as int,
        ) == amount_text(whole, fraction, point),
{
    let amount = amount_text(whole, fraction, point);
    let text = amount + rest;
    assert forall|j: int| 0 <= j < amount.len() implies is_amount_char(text[j]) by {
        if j < whole.len() {
            assert(is_digit_char(whole[j]));
        } else if j > whole.len() {
            assert(is_digit_char(fraction[j - whole.len() - 1]));
        }
    }
    lemma_amount_len_is(text, amount.len() as int);
    assert(text.take(amount.len() as int) =~= amount);
    assert forall|j: int| 0 <= j < whole.len() implies amount[j] != '.' by {
        assert(is_digit_char(whole[j]));
    }
    lemma_first_position_is(amount, '.', whole.len() as int);
    assert(whole_part(amount) =~= whole);
    assert(fraction_part(amount) =~= fraction);
}

/// A duration text read twice reads the same both times.
pub proof fn lemma_duration_read_alike(text: Seq<char>, first: Option<usize>, second: Option<usize>)
    requires
        first == duration_in_minutes(text),
        second == duration_in_minutes(text),
    ensures
        first == second,
{
}

/// A unit with no whitespace at either end is left as it is when the
/// whitespace around it is taken away.
pub proof fn lemma_trimmed_unit(unit: Seq<char>)
    requires
        unit.len() > 0,
        !is_whitespace_char(unit[0]),
        !is_whitespace_char(unit.last()),
    ensures
        trimmed(unit) == unit,
{
    lemma_trim_start_is(unit, 0);
    assert(unit.skip(0) =~= unit);
    lemma_trim_end_is(unit, unit.len() as int);
    assert(unit.take(unit.len() as int) =~= unit);
}

} // verus!
