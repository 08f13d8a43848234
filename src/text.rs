//! Building ASCII text: digits in a base, decimal numbers, and moving text
//! into a byte sink.

use vstd::prelude::*;
use vstd::arithmetic::div_mod::{lemma_div_decreases, lemma_multiply_divide_lt};
use vstd::utf8::is_ascii_chars;

verus! {

/// The character of digit `d` (below sixteen), with letters in upper or
/// lower case.
pub open spec fn digit_char(d: nat, upper: bool) -> char {
    if d < 10 {
        (d + 48) as u32 as char
    } else if upper {
        (d + 55) as u32 as char
    } else {
        (d + 87) as u32 as char
    }
}

/// The lowest `n` digits of `v` in `base`, most significant first: `v`
/// zero-padded to `n` digits when it has no more than that.
pub open spec fn digits(v: nat, base: nat, n: nat, upper: bool) -> Seq<char>
    decreases n,
{
    if n == 0 {
        Seq::empty()
    } else {
        digits(v / base, base, (n - 1) as nat, upper).push(digit_char(v % base, upper))
    }
}

/// How many digits `v` has in `base`.
pub open spec fn digit_count(v: nat, base: nat) -> nat
    decreases v,
    via digit_count_decreases
{
    if base < 2 || v < base {
        1
    } else {
        1 + digit_count(v / base, base)
    }
}

#[via_fn]
proof fn digit_count_decreases(v: nat, base: nat) {
    if !(base < 2 || v < base) {
        lemma_div_decreases(v as int, base as int);
    }
}

/// A number in decimal, without leading zeros.
pub open spec fn decimal(v: nat) -> Seq<char> {
    digits(v, 10, digit_count(v, 10), false)
}

/// The bytes of an ASCII character sequence.
pub open spec fn ascii_bytes(s: Seq<char>) -> Seq<u8> {
    s.map_values(|c: char| c as u8)
}

/// Digits in a base up to sixteen are ASCII.
pub proof fn lemma_digits_ascii(v: nat, base: nat, n: nat, upper: bool)
    requires
        2 <= base <= 16,
    ensures
        is_ascii_chars(digits(v, base, n, upper)),
    decreases n,
{
    if n > 0 {
        lemma_digits_ascii(v / base, base, (n - 1) as nat, upper);
    }
}

/// Relies on `String::push`: the character is appended at the end.
#[verifier::external_body]
pub(crate) fn push_char(s: &mut String, c: char)
    ensures
        final(s)@ == old(s)@.push(c),
{
    s.push(c)
}

/// Character for a digit, as `digit_char` gives it.
pub(crate) fn digit_to_char(d: u8, upper: bool) -> (r: char)
    requires
        d < 16,
    ensures
        r == digit_char(d as nat, upper),
{
    if d < 10 {
        (d + 48) as char
    } else if upper {
        (d + 55) as char
    } else {
        (d + 87) as char
    }
}

/// Appends the lowest `n` digits of `v` in `base`.
pub(crate) fn push_digits(s: &mut String, v: u64, base: u64, n: usize, upper: bool)
    requires
        2 <= base <= 16,
    ensures
        final(s)@ == old(s)@ + digits(v as nat, base as nat, n as nat, upper),
    decreases n,
{
    if n > 0 {
        push_digits(s, v / base, base, n - 1, upper);
        let d = (v % base) as u8;
        push_char(s, digit_to_char(d, upper));
        assert(s@ =~= old(s)@ + digits(v as nat, base as nat, n as nat, upper));
    } else {
        assert(s@ =~= old(s)@ + digits(v as nat, base as nat, n as nat, upper));
    }
}

/// `base` to the power `k`.
spec fn power(base: nat, k: nat) -> nat
    decreases k,
{
    if k == 0 {
        1
    } else {
        base * power(base, (k - 1) as nat)
    }
}

/// A number below `base` to the power `k` has at most `k` digits.
proof fn lemma_digit_count_le(v: nat, base: nat, k: nat)
    requires
        base >= 2,
        k >= 1,
        v < power(base, k),
    ensures
        digit_count(v, base) <= k,
    decreases k,
{
    if v >= base {
        assert(power(base, 1) == base) by {
            reveal_with_fuel(power, 2);
        }
        lemma_div_decreases(v as int, base as int);
        assert(v / base < power(base, (k - 1) as nat)) by {
            assert(power(base, k) == base * power(base, (k - 1) as nat));
            lemma_multiply_divide_lt(v as int, base as int, power(base, (k - 1) as nat) as int);
        }
        lemma_digit_count_le(v / base, base, (k - 1) as nat);
    }
}

/// Number of digits of `v` in base ten or sixteen.
pub(crate) fn count_digits(v: u64, base: u64) -> (r: usize)
    requires
        base == 10 || base == 16,
    ensures
        r == digit_count(v as nat, base as nat),
        r <= 20,
{
    proof {
        reveal_with_fuel(power, 21);
        if base == 16 {
            lemma_digit_count_le(v as nat, 16, 16);
        } else {
            lemma_digit_count_le(v as nat, 10, 20);
        }
    }
    let mut n: usize = 1;
    let mut x: u64 = v;
    while x >= base
        invariant
            base == 10 || base == 16,
            1 <= n,
            n - 1 + digit_count(x as nat, base as nat) == digit_count(v as nat, base as nat),
            digit_count(v as nat, base as nat) <= 20,
        decreases x,
    {
        assert(digit_count(x as nat, base as nat) == 1 + digit_count(x as nat / base as nat, base as nat));
        x = x / base;
        n = n + 1;
    }
    n
}

/// Appends a number in decimal.
pub(crate) fn push_decimal(s: &mut String, v: u64)
    ensures
        final(s)@ == old(s)@ + decimal(v as nat),
{
    let n = count_digits(v, 10);
    push_digits(s, v, 10, n, false);
}

/// Appends the bytes of an ASCII string to a byte sink.
pub(crate) fn push_ascii(w: &mut Vec<u8>, s: &str)
    requires
        is_ascii_chars(s@),
    ensures
        final(w)@ == old(w)@ + ascii_bytes(s@),
{
    let bytes = s.as_bytes();
    proof {
        vstd::string::is_ascii_spec_bytes(s);
    }
    let mut i: usize = 0;
    while i < bytes.len()
        invariant
            bytes@.len() == s@.len(),
            forall|k: int| 0 <= k < s@.len() ==> bytes@[k] == s@[k] as u8,
            i <= bytes@.len(),
            w@ == old(w)@ + ascii_bytes(s@).take(i as int),
        decreases bytes@.len() - i,
    {
        w.push(bytes[i]);
        i = i + 1;
        assert(w@ =~= old(w)@ + ascii_bytes(s@).take(i as int));
    }
    assert(ascii_bytes(s@).take(i as int) =~= ascii_bytes(s@));
}

} // verus!
