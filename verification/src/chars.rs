//! Character-level helpers shared by the front-matter parser, the slug
//! derivation and the formatting code: ASCII case folding, whitespace
//! classification, and decimal rendering of integers.

use vstd::prelude::*;

verus! {

/// ASCII lower-casing of a single character; everything outside `A..=Z`
/// is left as it is.
pub open spec fn lower_char(c: char) -> char {
    if 'A' <= c && c <= 'Z' {
        ((c as u8) + 32) as char
    } else {
        c
    }
}

/// Exec counterpart of [`lower_char`].
pub fn to_lower_char(c: char) -> (r: char)
    ensures
        r == lower_char(c),
{
    if 'A' <= c && c <= 'Z' {
        ((c as u8) + 32) as char
    } else {
        c
    }
}

/// The five characters that ASCII counts as whitespace.
pub open spec fn is_ascii_ws(c: char) -> bool {
    c == ' ' || c == '\t' || c == '\n' || c == '\r' || c == '\x0c'
}

/// Exec counterpart of [`is_ascii_ws`].
pub fn char_is_ascii_ws(c: char) -> (r: bool)
    ensures
        r == is_ascii_ws(c),
{
    c == ' ' || c == '\t' || c == '\n' || c == '\r' || c == '\x0c'
}

/// Relies on `String::push`: appends one character at the end.
#[verifier::external_body]
pub fn push_char(s: &mut String, c: char)
    ensures
        final(s)@ == old(s)@.push(c),
{
    s.push(c)
}

/// The character for one decimal digit.
pub open spec fn digit_char(d: nat) -> char {
    if d == 0 { '0' }
    else if d == 1 { '1' }
    else if d == 2 { '2' }
    else if d == 3 { '3' }
    else if d == 4 { '4' }
    else if d == 5 { '5' }
    else if d == 6 { '6' }
    else if d == 7 { '7' }
    else if d == 8 { '8' }
    else { '9' }
}

/// Exec counterpart of [`digit_char`].
pub fn digit_to_char(d: u64) -> (r: char)
    requires
        d < 10,
    ensures
        r == digit_char(d as nat),
{
    if d == 0 { '0' }
    else if d == 1 { '1' }
    else if d == 2 { '2' }
    else if d == 3 { '3' }
    else if d == 4 { '4' }
    else if d == 5 { '5' }
    else if d == 6 { '6' }
    else if d == 7 { '7' }
    else if d == 8 { '8' }
    else { '9' }
}

/// Decimal digits of `n`, most significant first, with no leading zeros
/// (a single `'0'` for zero).
pub open spec fn dec_digits(n: nat) -> Seq<char>
    decreases n,
{
    if n < 10 {
        seq![digit_char(n)]
    } else {
        dec_digits(n / 10) + seq![digit_char(n % 10)]
    }
}

/// Renders `n` in decimal, as [`dec_digits`] describes.
pub fn u64_to_string(n: u64) -> (r: String)
    ensures
        r@ == dec_digits(n as nat),
{
    let mut digits: Vec<char> = Vec::new();
    digits.insert(0, digit_to_char(n % 10));
    let mut rest: u64 = n / 10;
    proof {
        assert(digits@ =~= seq![digit_char((n % 10) as nat)]);
        if n < 10 {
            assert(dec_digits(n as nat) == digits@);
        }
    }
    while rest > 0
        invariant
            rest > 0 ==> dec_digits(n as nat) == dec_digits(rest as nat) + digits@,
            rest == 0 ==> dec_digits(n as nat) == digits@,
        decreases rest,
    {
        let ghost before = digits@;
        digits.insert(0, digit_to_char(rest % 10));
        proof {
            assert(digits@ =~= seq![digit_char((rest % 10) as nat)] + before);
            if rest >= 10 {
                assert(dec_digits(rest as nat) == dec_digits((rest / 10) as nat)
                    + seq![digit_char((rest % 10) as nat)]);
                assert(dec_digits((rest / 10) as nat) + digits@
                    =~= dec_digits(rest as nat) + before);
            } else {
                assert(dec_digits(rest as nat) == seq![digit_char((rest % 10) as nat)]);
                assert(digits@ =~= dec_digits(rest as nat) + before);
            }
        }
        rest = rest / 10;
    }
    chars_to_string(&digits)
}

/// Collects a character vector into a `String` with the same view.
pub fn chars_to_string(chars: &Vec<char>) -> (r: String)
    ensures
        r@ == chars@,
{
    let mut out = String::new();
    let mut i: usize = 0;
    while i < chars.len()
        invariant
            i <= chars@.len(),
            out@ == chars@.subrange(0, i as int),
        decreases chars@.len() - i,
    {
        push_char(&mut out, chars[i]);
        proof {
            assert(out@ =~= chars@.subrange(0, i + 1 as int));
        }
        i = i + 1;
    }
    proof {
        assert(out@ =~= chars@);
    }
    out
}

/// `n` rendered as exactly two decimal digits, zero-padded.
pub open spec fn two_digits(n: nat) -> Seq<char> {
    seq![digit_char(n / 10 % 10), digit_char(n % 10)]
}

/// Appends the two-digit rendering of `n` to `s`.
pub fn push_two_digits(s: &mut String, n: u64)
    requires
        n < 100,
    ensures
        final(s)@ == old(s)@ + two_digits(n as nat),
{
    push_char(s, digit_to_char(n / 10 % 10));
    push_char(s, digit_to_char(n % 10));
    proof {
        assert(s@ =~= old(s)@ + two_digits(n as nat));
    }
}

/// `n` rendered as exactly four decimal digits, zero-padded.
pub open spec fn four_digits(n: nat) -> Seq<char> {
    seq![
        digit_char(n / 1000 % 10),
        digit_char(n / 100 % 10),
        digit_char(n / 10 % 10),
        digit_char(n % 10),
    ]
}

/// Appends the four-digit rendering of `n` to `s`.
pub fn push_four_digits(s: &mut String, n: u64)
    requires
        n < 10000,
    ensures
        final(s)@ == old(s)@ + four_digits(n as nat),
{
    push_char(s, digit_to_char(n / 1000 % 10));
    push_char(s, digit_to_char(n / 100 % 10));
    push_char(s, digit_to_char(n / 10 % 10));
    push_char(s, digit_to_char(n % 10));
    proof {
        assert(s@ =~= old(s)@ + four_digits(n as nat));
    }
}

} // verus!
