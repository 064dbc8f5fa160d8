use vstd::prelude::*;

verus! {

pub open spec fn is_digit(c: char) -> bool {
    '0' <= c && c <= '9'
}

pub open spec fn is_sign(c: char) -> bool {
    c == '+' || c == '-'
}

/// Whether `c` is the letter `l` (given in lower case) in either case.
pub open spec fn letter_is(c: char, l: char) -> bool {
    c == l || c as u32 == l as u32 - 32
}

/// Position of the first non-digit at or after `i`, or the length of `s`.
pub open spec fn digits_end(s: Seq<char>, i: nat) -> nat
    decreases s.len() - i,
{
    if i < s.len() && is_digit(s[i as int]) {
        digits_end(s, i + 1)
    } else {
        i
    }
}

/// `Digit+ | Digit+ '.' Digit* | Digit* '.' Digit+`: digits with at most one
/// decimal point, and at least one digit.
pub open spec fn mantissa(s: Seq<char>) -> bool {
    let k = digits_end(s, 0);
    if k == s.len() {
        s.len() >= 1
    } else {
        s[k as int] == '.' && digits_end(s, k + 1) == s.len() && s.len() >= 2
    }
}

/// `Sign? Digit+`.
pub open spec fn exponent_digits(s: Seq<char>) -> bool {
    if s.len() >= 1 && is_sign(s[0]) {
        s.len() >= 2 && digits_end(s, 1) == s.len()
    } else {
        s.len() >= 1 && digits_end(s, 0) == s.len()
    }
}

/// Position of the first `e` or `E` at or after `i`, or the length of `s`.
pub open spec fn exp_mark(s: Seq<char>, i: nat) -> nat
    decreases s.len() - i,
{
    if i < s.len() && !letter_is(s[i as int], 'e') {
        exp_mark(s, i + 1)
    } else {
        i
    }
}

/// `Mantissa Exp?` with `Exp ::= 'e' Sign? Digit+`.
pub open spec fn decimal_number(s: Seq<char>) -> bool {
    let k = exp_mark(s, 0);
    if k == s.len() {
        mantissa(s)
    } else {
        mantissa(s.take(k as int)) && exponent_digits(s.skip(k + 1int))
    }
}

/// `inf`, `infinity` or `nan`, in any case.
pub open spec fn special_value(s: Seq<char>) -> bool {
    ||| (s.len() == 3 && letter_is(s[0], 'i') && letter_is(s[1], 'n') && letter_is(s[2], 'f'))
    ||| (s.len() == 8 && letter_is(s[0], 'i') && letter_is(s[1], 'n') && letter_is(s[2], 'f')
        && letter_is(s[3], 'i') && letter_is(s[4], 'n') && letter_is(s[5], 'i') && letter_is(
        s[6],
        't',
    ) && letter_is(s[7], 'y'))
    ||| (s.len() == 3 && letter_is(s[0], 'n') && letter_is(s[1], 'a') && letter_is(s[2], 'n'))
}

/// The text that `str::parse::<f64>` accepts, by the grammar of its documentation:
/// `Sign? ( 'inf' | 'infinity' | 'nan' | Number )`, letters in any case.
pub open spec fn float_text(s: Seq<char>) -> bool {
    let body = if s.len() >= 1 && is_sign(s[0]) {
        s.skip(1)
    } else {
        s
    };
    special_value(body) || decimal_number(body)
}

fn letter_matches(c: char, l: char) -> (r: bool)
    requires
        'a' <= l <= 'z',
    ensures
        r == letter_is(c, l),
{
    let lu = l as u32;
    c == l || c as u32 == lu - 32
}

fn digits_end_at(s: &[char], i: usize) -> (r: usize)
    requires
        i <= s.len(),
    ensures
        r == digits_end(s@, i as nat),
        i <= r <= s.len(),
{
    let mut k = i;
    while k < s.len() && '0' <= s[k] && s[k] <= '9'
        invariant
            i <= k <= s.len(),
            digits_end(s@, i as nat) == digits_end(s@, k as nat),
        decreases s.len() - k,
    {
        k = k + 1;
    }
    k
}

fn is_mantissa(s: &[char]) -> (r: bool)
    ensures
        r == mantissa(s@),
{
    let k = digits_end_at(s, 0);
    if k == s.len() {
        s.len() >= 1
    } else {
        s[k] == '.' && digits_end_at(s, k + 1) == s.len() && s.len() >= 2
    }
}

fn is_exponent_digits(s: &[char]) -> (r: bool)
    ensures
        r == exponent_digits(s@),
{
    if s.len() >= 1 && (s[0] == '+' || s[0] == '-') {
        s.len() >= 2 && digits_end_at(s, 1) == s.len()
    } else {
        s.len() >= 1 && digits_end_at(s, 0) == s.len()
    }
}

fn is_decimal_number(s: &[char]) -> (r: bool)
    ensures
        r == decimal_number(s@),
{
    let mut k: usize = 0;
    while k < s.len() && !letter_matches(s[k], 'e')
        invariant
            k <= s.len(),
            exp_mark(s@, 0) == exp_mark(s@, k as nat),
        decreases s.len() - k,
    {
        k = k + 1;
    }
    if k == s.len() {
        is_mantissa(s)
    } else {
        let head = vstd::slice::slice_subrange(s, 0, k);
        let tail = vstd::slice::slice_subrange(s, k + 1, s.len());
        assert(head@ =~= s@.take(k as int));
        assert(tail@ =~= s@.skip(k + 1));
        is_mantissa(head) && is_exponent_digits(tail)
    }
}

fn is_special_value(s: &[char]) -> (r: bool)
    ensures
        r == special_value(s@),
{
    (s.len() == 3 && letter_matches(s[0], 'i') && letter_matches(s[1], 'n') && letter_matches(
        s[2],
        'f',
    )) || (s.len() == 8 && letter_matches(s[0], 'i') && letter_matches(s[1], 'n')
        && letter_matches(s[2], 'f') && letter_matches(s[3], 'i') && letter_matches(s[4], 'n')
        && letter_matches(s[5], 'i') && letter_matches(s[6], 't') && letter_matches(s[7], 'y'))
        || (s.len() == 3 && letter_matches(s[0], 'n') && letter_matches(s[1], 'a')
        && letter_matches(s[2], 'n'))
}

/// Whether `str::parse::<f64>` accepts the text `s` (given as its characters).
pub fn is_float_text(s: &[char]) -> (r: bool)
    ensures
        r == float_text(s@),
{
    if s.len() >= 1 && (s[0] == '+' || s[0] == '-') {
        let body = vstd::slice::slice_subrange(s, 1, s.len());
        assert(body@ =~= s@.skip(1));
        is_special_value(body) || is_decimal_number(body)
    } else {
        is_special_value(s) || is_decimal_number(s)
    }
}

} // verus!
