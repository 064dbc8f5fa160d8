use vstd::prelude::*;
use vstd::string::StringExecFns;

verus! {

/// The character of a decimal digit.
pub open spec fn digit_char(d: nat) -> char {
    if d == 0 { '0' } else if d == 1 { '1' } else if d == 2 { '2' } else if d == 3 { '3' }
    else if d == 4 { '4' } else if d == 5 { '5' } else if d == 6 { '6' } else if d == 7 { '7' }
    else if d == 8 { '8' } else { '9' }
}

/// The decimal numeral of `n`, without leading zeros.
pub open spec fn decimal(n: nat) -> Seq<char>
    decreases n,
{
    if n < 10 {
        seq![digit_char(n)]
    } else {
        decimal(n / 10).push(digit_char(n % 10))
    }
}

fn digit(d: usize) -> (c: char)
    requires
        d < 10,
    ensures
        c == digit_char(d as nat),
{
    if d == 0 { '0' } else if d == 1 { '1' } else if d == 2 { '2' } else if d == 3 { '3' }
    else if d == 4 { '4' } else if d == 5 { '5' } else if d == 6 { '6' } else if d == 7 { '7' }
    else if d == 8 { '8' } else { '9' }
}

/// Appends a character to a string, with `String::push`.
#[verifier::external_body]
pub(crate) fn push_char(s: &mut String, c: char)
    ensures
        final(s)@ == old(s)@.push(c),
{
    s.push(c)
}

/// The decimal numeral of `n`, as `format!("{}", n)` writes it.
pub fn decimal_text(n: usize) -> (r: String)
    ensures
        r@ == decimal(n as nat),
{
    // Digits from the least significant one.
    let mut digits: Vec<char> = Vec::new();
    let mut m = n;
    let ghost mut rest: Seq<char> = Seq::empty();
    while m >= 10
        invariant
            decimal(n as nat) == decimal(m as nat) + rest,
            digits@ == rest.reverse(),
        decreases m,
    {
        let ghost old_rest = rest;
        let d = digit(m % 10);
        digits.push(d);
        proof {
            rest = seq![d] + old_rest;
            assert(decimal(m as nat) == decimal((m / 10) as nat).push(d));
            assert(decimal(m as nat) + old_rest =~= decimal((m / 10) as nat) + rest);
            assert(digits@ =~= rest.reverse());
        }
        m = m / 10;
    }
    let d = digit(m);
    digits.push(d);
    proof {
        let all = seq![d] + rest;
        assert(decimal(n as nat) =~= all);
        assert(digits@ =~= all.reverse());
    }
    let ghost all = digits@.reverse();
    let mut r = String::new();
    let mut i = digits.len();
    while i > 0
        invariant
            i <= digits.len(),
            all == digits@.reverse(),
            r@ == all.take(digits.len() - i),
        decreases i,
    {
        i = i - 1;
        push_char(&mut r, digits[i]);
        assert(r@ =~= all.take(digits.len() - i));
    }
    assert(all.take(digits.len() as int) =~= all);
    r
}

/// Text as `{:?}` writes a string: quoted, with escapes.
pub uninterp spec fn debug_quoted(s: Seq<char>) -> Seq<char>;

/// Printable ASCII text with no quote marks and no backslash, which `{:?}`
/// writes without escapes.
pub open spec fn plain_text(s: Seq<char>) -> bool {
    forall|i: int|
        0 <= i < s.len() ==> ' ' <= #[trigger] s[i] && s[i] <= '~' && s[i] != '"' && s[i] != '\''
            && s[i] != '\\'
}

/// Text as `{:?}` writes a string: plain text between two `"` marks; other
/// text as `debug_quoted` names it.
pub open spec fn debug_form(s: Seq<char>) -> Seq<char> {
    if plain_text(s) {
        seq!['"'] + s + seq!['"']
    } else {
        debug_quoted(s)
    }
}

/// Formats `s` with `{:?}` (std's `Debug` for `str`); the result is named
/// `debug_quoted(s@)`. Of plain text the documentation gives it: the text
/// between two `"` marks; so the result is `debug_form(s@)`.
#[verifier::external_body]
pub(crate) fn debug_text(s: &str) -> (r: String)
    ensures
        r@ == debug_quoted(s@),
        r@ == debug_form(s@),
{
    format!("{:?}", s)
}

/// `s` followed by `t`.
pub(crate) fn concat(s: String, t: &str) -> (r: String)
    ensures
        r@ == s@ + t@,
{
    s.concat(t)
}

/// The number that a string of decimal digits stands for.
pub open spec fn numeral_value(s: Seq<char>) -> int
    decreases s.len(),
{
    if s.len() == 0 {
        0
    } else {
        numeral_value(s.drop_last()) * 10 + (s.last() as int - '0' as int)
    }
}

/// `decimal(n)` is the numeral of `n`: it is made of the digits `0`–`9`,
/// reads back as `n`, and starts with `0` only when it is `0` itself.
pub proof fn law_decimal_is_the_numeral(n: nat)
    ensures
        forall|i: int| 0 <= i < decimal(n).len() ==> '0' <= #[trigger] decimal(n)[i] <= '9',
        numeral_value(decimal(n)) == n,
        decimal(n).len() >= 1,
        decimal(n)[0] == '0' ==> n == 0 && decimal(n).len() == 1,
    decreases n,
{
    lemma_digit_char_value((n % 10) as nat);
    if n >= 10 {
        law_decimal_is_the_numeral(n / 10);
        let d = decimal(n);
        assert(d.drop_last() =~= decimal(n / 10));
        assert(d[0] == decimal(n / 10)[0]);
        assert(d.last() == digit_char((n % 10) as nat));
        let v = numeral_value(decimal(n / 10));
        assert(numeral_value(d) == v * 10 + (d.last() as int - '0' as int));
        assert(v == n / 10);
        assert(numeral_value(d) == (n / 10) * 10 + n % 10);
    } else {
        lemma_digit_char_value(n);
        let d = decimal(n);
        assert(d.drop_last() =~= Seq::<char>::empty());
        assert(numeral_value(d) == numeral_value(d.drop_last()) * 10 + (d.last() as int - '0' as int));
    }
}

proof fn lemma_digit_char_value(d: nat)
    requires
        d < 10,
    ensures
        digit_char(d) as int - '0' as int == d,
        '0' <= digit_char(d) <= '9',
{
}

} // verus!

