//! The mod7 checksum: a digit segment is valid when the sum of its decimal
//! digits, over a declared width, is divisible by 7.

use vstd::arithmetic::div_mod::*;
use vstd::prelude::*;

verus! {

/// Decimal digit `index` of `number`, counting from the units digit (index 0).
/// Positions beyond the most significant digit are 0.
pub open spec fn digit_at(number: nat, index: nat) -> nat
    decreases index,
{
    if index == 0 {
        number % 10
    } else {
        digit_at(number / 10, (index - 1) as nat)
    }
}

/// Sum of the `width` lowest decimal digits of `number` (zero-padded).
pub open spec fn digit_sum(number: nat, width: nat) -> nat
    decreases width,
{
    if width == 0 {
        0
    } else {
        digit_sum(number, (width - 1) as nat) + digit_at(number, (width - 1) as nat)
    }
}

/// The mod7 rule over `width` digits.
pub open spec fn satisfies_mod7(number: nat, width: nat) -> bool {
    digit_sum(number, width) % 7 == 0
}

/// `10` raised to `k`.
pub open spec fn pow10(k: nat) -> nat
    decreases k,
{
    if k == 0 {
        1
    } else {
        10 * pow10((k - 1) as nat)
    }
}

/// A decimal digit character.
pub open spec fn is_digit(c: char) -> bool {
    '0' <= c && c <= '9'
}

/// Every character of `s` is a decimal digit.
pub open spec fn all_digits(s: Seq<char>) -> bool {
    forall|i: int| 0 <= i < s.len() ==> is_digit(#[trigger] s[i])
}

/// The value of a digit character.
pub open spec fn char_value(c: char) -> nat {
    (c as int - '0' as int) as nat
}

/// The number that a string of digits denotes, most significant digit first.
pub open spec fn digits_value(s: Seq<char>) -> nat
    decreases s.len(),
{
    if s.len() == 0 {
        0
    } else {
        digits_value(s.drop_last()) * 10 + char_value(s.last())
    }
}

/// The sum of the digit values of the characters of `s`.
pub open spec fn char_digit_sum(s: Seq<char>) -> nat
    decreases s.len(),
{
    if s.len() == 0 {
        0
    } else {
        char_digit_sum(s.drop_last()) + char_value(s.last())
    }
}

/// Summing `width + 1` digits is the units digit plus `width` digits of the rest.
proof fn lemma_digit_sum_low(number: nat, width: nat)
    ensures
        digit_sum(number, width + 1) == number % 10 + digit_sum(number / 10, width),
    decreases width,
{
    if width > 0 {
        let w1 = (width - 1) as nat;
        lemma_digit_sum_low(number, w1);
        assert(digit_at(number, width) == digit_at(number / 10, w1));
        assert(digit_sum(number / 10, width) == digit_sum(number / 10, w1) + digit_at(
            number / 10,
            w1,
        ));
    } else {
        assert(digit_sum(number, 1) == digit_sum(number, 0) + digit_at(number, 0));
    }
}

/// The checksum of a digit string, read as a number over its own width, is the
/// plain sum of its digits; leading zeros count as digits of value 0.
pub proof fn lemma_digit_sum_of_string(s: Seq<char>)
    requires
        all_digits(s),
    ensures
        digit_sum(digits_value(s), s.len()) == char_digit_sum(s),
    decreases s.len(),
{
    if s.len() > 0 {
        let rest = s.drop_last();
        assert(all_digits(rest)) by {
            assert forall|i: int| 0 <= i < rest.len() implies is_digit(#[trigger] rest[i]) by {
                assert(rest[i] == s[i]);
            }
        }
        lemma_digit_sum_of_string(rest);
        let v = digits_value(s);
        let d = char_value(s.last());
        assert(is_digit(s[s.len() - 1]));
        assert(d < 10);
        lemma_fundamental_div_mod_converse_div(v as int, 10, digits_value(rest) as int, d as int);
        lemma_fundamental_div_mod_converse_mod(v as int, 10, digits_value(rest) as int, d as int);
        lemma_digit_sum_low(v, (s.len() - 1) as nat);
    }
}

/// The mod7 law: for every digit string `s` of declared width `s.len()`, the
/// checksum holds exactly when the sum of its digits is divisible by 7,
/// including when `s` has leading zeros.
pub proof fn lemma_mod7_is_digit_sum_mod7(s: Seq<char>)
    requires
        all_digits(s),
    ensures
        satisfies_mod7(digits_value(s), s.len()) == (char_digit_sum(s) % 7 == 0),
{
    lemma_digit_sum_of_string(s);
}

/// A digit string of length `n` denotes a number below `10^n`.
pub proof fn lemma_digits_value_bound(s: Seq<char>)
    requires
        all_digits(s),
    ensures
        digits_value(s) < pow10(s.len()),
    decreases s.len(),
{
    if s.len() > 0 {
        let rest = s.drop_last();
        assert(all_digits(rest)) by {
            assert forall|i: int| 0 <= i < rest.len() implies is_digit(#[trigger] rest[i]) by {
                assert(rest[i] == s[i]);
            }
        }
        lemma_digits_value_bound(rest);
        assert(is_digit(s[s.len() - 1]));
    }
}

/// A leading zero does not change the number that a digit string denotes.
pub proof fn lemma_leading_zero(s: Seq<char>)
    ensures
        digits_value(seq!['0'] + s) == digits_value(s),
    decreases s.len(),
{
    let z = seq!['0'] + s;
    if s.len() == 0 {
        assert(z.drop_last() =~= Seq::<char>::empty());
        assert(z.last() == '0');
        assert(digits_value(Seq::<char>::empty()) == 0);
    } else {
        lemma_leading_zero(s.drop_last());
        assert(z.drop_last() =~= seq!['0'] + s.drop_last());
        assert(z.last() == s.last());
    }
}

/// The first character of a digit string is the digit of the number it denotes
/// at the highest position of its width.
pub proof fn lemma_leading_digit(s: Seq<char>)
    requires
        all_digits(s),
        s.len() > 0,
    ensures
        digit_at(digits_value(s), (s.len() - 1) as nat) == char_value(s[0]),
    decreases s.len(),
{
    let rest = s.drop_last();
    let v = digits_value(s);
    let c = char_value(s.last());
    assert(is_digit(s[s.len() - 1]));
    lemma_fundamental_div_mod_converse_div(v as int, 10, digits_value(rest) as int, c as int);
    lemma_fundamental_div_mod_converse_mod(v as int, 10, digits_value(rest) as int, c as int);
    if s.len() > 1 {
        assert(all_digits(rest)) by {
            assert forall|i: int| 0 <= i < rest.len() implies is_digit(#[trigger] rest[i]) by {
                assert(rest[i] == s[i]);
            }
        }
        lemma_leading_digit(rest);
        assert(rest[0] == s[0]);
        assert(digit_at(v, (s.len() - 1) as nat) == digit_at(v / 10, (s.len() - 2) as nat));
    } else {
        assert(rest.len() == 0);
        assert(s.last() == s[0]);
    }
}

/// A number below `10^index` has no digit at position `index`.
pub proof fn lemma_digit_at_beyond(number: nat, index: nat)
    requires
        number < pow10(index),
    ensures
        digit_at(number, index) == 0,
    decreases index,
{
    if index > 0 {
        lemma_digit_at_beyond(number / 10, (index - 1) as nat);
    }
}

/// Wraps `number` into `[0, limit)`.
pub fn numerical_overflow(number: usize, limit: usize) -> (r: usize)
    requires
        limit > 0,
    ensures
        r == number % limit,
{
    let remainder = number % limit;
    if remainder >= limit {
        remainder - limit
    } else {
        remainder
    }
}

/// The decimal digit of `number` at position `index` from the units digit.
pub fn get_nth_digit_from_end(number: usize, index: usize) -> (r: usize)
    ensures
        r == digit_at(number as nat, index as nat),
        r < 10,
{
    let mut n: usize = number;
    let mut i: usize = 0;
    while i < index
        invariant
            i <= index,
            digit_at(n as nat, (index - i) as nat) == digit_at(number as nat, index as nat),
        decreases index - i,
    {
        assert(digit_at(n as nat, (index - i) as nat) == digit_at(
            (n / 10) as nat,
            (index - i - 1) as nat,
        ));
        n = n / 10;
        i = i + 1;
    }
    n % 10
}

/// Whether the `len` lowest digits of `segment` sum to a multiple of 7.
pub fn check_mod7(segment: usize, len: usize) -> (r: bool)
    ensures
        r == satisfies_mod7(segment as nat, len as nat),
{
    let mut residue: usize = 0;
    let mut counter: usize = 0;
    while counter < len
        invariant
            counter <= len,
            residue == digit_sum(segment as nat, counter as nat) % 7,
        decreases len - counter,
    {
        let d = get_nth_digit_from_end(segment, counter);
        proof {
            lemma_add_mod_noop(
                digit_sum(segment as nat, counter as nat) as int,
                d as int,
                7,
            );
        }
        residue = (residue + d) % 7;
        counter = counter + 1;
    }
    residue == 0
}

} // verus!
