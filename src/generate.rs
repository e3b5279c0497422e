//! Generates random valid keys of each kind.
//!
//! Each generator draws its random values from the thread-local generator of
//! `rand` and hands them to a builder that is verified for every value drawn.

use rand::Rng;
use vstd::prelude::*;
use vstd::string::*;

use crate::checksum::{
    all_digits, char_digit_sum, char_value, digit_at, digits_value, is_digit, lemma_digit_at_beyond,
    lemma_digits_value_bound, lemma_leading_zero, lemma_mod7_is_digit_sum_mod7, pow10,
};
use crate::text::{digit_char, lemma_padded, padded, push_char, push_padded};
use crate::validate::{
    field, is_excluded_prefix, oem_literal, valid_cd_long, valid_cd_normal, valid_oem,
    valid_oem_date,
};

verus! {

/// How many times a random draw is retried before the generator settles the
/// value itself. Each retry succeeds with a fixed positive probability, so the
/// limit is never met in practice; it only gives the loops an end.
const RETRY_LIMIT: u64 = 0xffff_ffff_ffff_ffff;

/// Relies on rand's `thread_rng().gen_range(start..end)`: a value drawn
/// uniformly from `start..end`. It panics on an empty range, which `requires`
/// leaves out.
#[verifier::external_body]
fn random_within_range(start: usize, end: usize) -> (r: usize)
    requires
        start < end,
    ensures
        start <= r < end,
{
    rand::thread_rng().gen_range(start..end)
}

/// Relies on rand's `thread_rng().gen_ratio(numerator, denominator)`: `true`
/// with probability `numerator / denominator`, always when the two are equal
/// and never when `numerator` is 0. It panics when `denominator` is 0 or below
/// `numerator`, which `requires` leaves out.
#[verifier::external_body]
fn random_ratio(numerator: u32, denominator: u32) -> (r: bool)
    requires
        0 < denominator,
        numerator <= denominator,
    ensures
        numerator == denominator ==> r,
        numerator == 0 ==> !r,
{
    rand::thread_rng().gen_ratio(numerator, denominator)
}

/// The sum of a sequence of digits.
pub open spec fn seq_sum(d: Seq<usize>) -> nat
    decreases d.len(),
{
    if d.len() == 0 {
        0
    } else {
        seq_sum(d.drop_last()) + d.last() as nat
    }
}

/// Every element is a decimal digit.
pub open spec fn all_below_ten(d: Seq<usize>) -> bool {
    forall|i: int| 0 <= i < d.len() ==> #[trigger] d[i] < 10
}

/// The text of a sequence of digits, one character each.
pub open spec fn digits_text(d: Seq<usize>) -> Seq<char>
    decreases d.len(),
{
    if d.len() == 0 {
        Seq::empty()
    } else {
        digits_text(d.drop_last()).push(digit_char(d.last() as nat))
    }
}

/// A checksum segment as the generator makes it: `width` digits whose sum is
/// divisible by 7, the last one between 1 and 6.
pub open spec fn is_checksum_segment(t: Seq<char>, width: nat) -> bool {
    &&& t.len() == width
    &&& width > 0
    &&& all_digits(t)
    &&& '1' <= t.last() <= '6'
    &&& char_digit_sum(t) % 7 == 0
}

/// The normal CD keys that the generator can emit.
pub open spec fn generated_cd_normal(s: Seq<char>) -> bool {
    &&& s.len() == 11
    &&& all_digits(field(s, 0, 3))
    &&& digits_value(field(s, 0, 3)) <= 998
    &&& !is_excluded_prefix(digits_value(field(s, 0, 3)))
    &&& s[3] == '-'
    &&& is_checksum_segment(field(s, 4, 11), 7)
}

/// The long CD keys that the generator can emit: the fourth digit is the third
/// plus one, modulo 10.
pub open spec fn generated_cd_long(s: Seq<char>) -> bool {
    &&& s.len() == 12
    &&& all_digits(field(s, 0, 3))
    &&& is_digit(s[3])
    &&& char_value(s[3]) == (digits_value(field(s, 0, 3)) % 10 + 1) % 10
    &&& s[4] == '-'
    &&& is_checksum_segment(field(s, 5, 12), 7)
}

/// The years that the OEM generator draws: 95 to 98, or 00 and 01.
pub open spec fn generated_oem_year(year: nat) -> bool {
    (95 <= year <= 98) || year <= 1
}

/// The OEM keys that the generator can emit.
pub open spec fn generated_oem(s: Seq<char>) -> bool {
    &&& s.len() == 23
    &&& all_digits(field(s, 0, 3))
    &&& valid_oem_date(digits_value(field(s, 0, 3)))
    &&& all_digits(field(s, 3, 5))
    &&& generated_oem_year(digits_value(field(s, 3, 5)))
    &&& field(s, 5, 10) == oem_literal()
    &&& s[10] == '0'
    &&& is_checksum_segment(field(s, 11, 17), 6)
    &&& s[17] == '-'
    &&& all_digits(field(s, 18, 23))
    &&& digits_value(field(s, 18, 23)) <= 99998
}


/// Rendering digits keeps their count and their sum, gives digit characters,
/// and the last character stands for the last digit.
pub proof fn lemma_digits_text(d: Seq<usize>)
    requires
        all_below_ten(d),
    ensures
        digits_text(d).len() == d.len(),
        all_digits(digits_text(d)),
        char_digit_sum(digits_text(d)) == seq_sum(d),
        forall|i: int| 0 <= i < d.len() ==> char_value(#[trigger] digits_text(d)[i]) == d[i],
    decreases d.len(),
{
    if d.len() > 0 {
        let rest = d.drop_last();
        assert(all_below_ten(rest)) by {
            assert forall|i: int| 0 <= i < rest.len() implies #[trigger] rest[i] < 10 by {
                assert(rest[i] == d[i]);
            }
        }
        lemma_digits_text(rest);
        let t = digits_text(d);
        assert(t.drop_last() =~= digits_text(rest));
        assert(d.last() < 10);
        assert forall|i: int| 0 <= i < t.len() implies is_digit(#[trigger] t[i]) && char_value(t[i])
            == d[i] by {
            if i < rest.len() {
                assert(t[i] == digits_text(rest)[i]);
            }
        }
    }
}

/// Replacing one digit changes the sum by the difference.
proof fn lemma_seq_sum_update(d: Seq<usize>, i: int, x: usize)
    requires
        0 <= i < d.len(),
    ensures
        seq_sum(d.update(i, x)) + d[i] == seq_sum(d) + x,
    decreases d.len(),
{
    let u = d.update(i, x);
    if i == d.len() - 1 {
        assert(u.drop_last() =~= d.drop_last());
    } else {
        lemma_seq_sum_update(d.drop_last(), i, x);
        assert(u.drop_last() =~= d.drop_last().update(i, x));
    }
}

/// The text of `digits`, one character per digit.
pub fn render_digits(digits: &Vec<usize>) -> (r: String)
    requires
        all_below_ten(digits@),
    ensures
        r@ == digits_text(digits@),
{
    let mut s = String::new();
    let mut i: usize = 0;
    while i < digits.len()
        invariant
            i <= digits@.len(),
            all_below_ten(digits@),
            s@ == digits_text(digits@.subrange(0, i as int)),
        decreases digits@.len() - i,
    {
        let d = digits[i];
        assert(d < 10);
        push_char(&mut s, ((d as u8) + 48u8) as char);
        assert(digits@.subrange(0, i + 1).drop_last() =~= digits@.subrange(0, i as int));
        i = i + 1;
    }
    assert(digits@.subrange(0, i as int) =~= digits@);
    s
}

/// The sum of `digits`, modulo 7.
pub fn digit_sum_mod7(digits: &Vec<usize>) -> (r: usize)
    requires
        all_below_ten(digits@),
    ensures
        r == seq_sum(digits@) % 7,
{
    let mut residue: usize = 0;
    let mut i: usize = 0;
    while i < digits.len()
        invariant
            i <= digits@.len(),
            all_below_ten(digits@),
            residue == seq_sum(digits@.subrange(0, i as int)) % 7,
        decreases digits@.len() - i,
    {
        let d = digits[i];
        assert(d < 10);
        assert(digits@.subrange(0, i + 1).drop_last() =~= digits@.subrange(0, i as int));
        proof {
            vstd::arithmetic::div_mod::lemma_add_mod_noop(
                seq_sum(digits@.subrange(0, i as int)) as int,
                d as int,
                7,
            );
        }
        residue = (residue + d) % 7;
        i = i + 1;
    }
    assert(digits@.subrange(0, i as int) =~= digits@);
    residue
}

/// A random checksum segment of `length` digits: the first `length - 1` drawn
/// from 0 to 9, the last from 1 to 6, then digits other than the last redrawn
/// until the sum is divisible by 7.
fn seven_div_generator(length: usize) -> (r: String)
    requires
        2 <= length,
    ensures
        is_checksum_segment(r@, length as nat),
{
    let mut num_array: Vec<usize> = Vec::new();
    let mut i: usize = 0;
    while i < length - 1
        invariant
            i <= length - 1,
            num_array@.len() == i,
            all_below_ten(num_array@),
        decreases length - 1 - i,
    {
        num_array.push(random_within_range(0, 10));
        i = i + 1;
    }
    num_array.push(random_within_range(1, 7));
    let mut draws: u64 = 0;
    while digit_sum_mod7(&num_array) != 0 && draws < RETRY_LIMIT
        invariant
            2 <= length,
            num_array@.len() == length,
            all_below_ten(num_array@),
            1 <= num_array@[length - 1] <= 6,
        decreases RETRY_LIMIT - draws,
    {
        let index = random_within_range(0, length - 1);
        let value = random_within_range(0, 10);
        num_array.set(index, value);
        draws = draws + 1;
    }
    let residue = digit_sum_mod7(&num_array);
    if residue != 0 {
        // The retries ran out: set the first digit to the one that mends the sum.
        let first = num_array[0];
        let mended = (first + 7 - residue) % 7;
        proof {
            lemma_seq_sum_update(num_array@, 0, mended);
        }
        num_array.set(0, mended);
    }
    let r = render_digits(&num_array);
    proof {
        lemma_digits_text(num_array@);
    }
    r
}

/// Whether a drawn first segment may start a normal CD key.
pub fn is_allowed_prefix(n: usize) -> (r: bool)
    ensures
        r == !is_excluded_prefix(n as nat),
{
    match n {
        333 | 444 | 555 | 666 | 777 | 888 | 999 => false,
        _ => true,
    }
}

/// The check digit of a long CD key: the last digit of `first_digits` plus one,
/// with 10 wrapping to 0.
pub fn long_check_digit(first_digits: usize) -> (r: usize)
    ensures
        r == (first_digits % 10 + 1) % 10,
{
    let mut check_digit = first_digits % 10 + 1;
    if check_digit > 9 {
        check_digit = 0;
    }
    check_digit
}

/// The normal CD key `PPP-SSSSSSS` of a first segment and a checksum segment.
pub fn format_cd_normal(prefix: usize, segment: &str) -> (r: String)
    requires
        prefix < 1000,
    ensures
        r@ == padded(prefix as nat, 3) + seq!['-'] + segment@,
{
    let mut s = String::new();
    push_padded(&mut s, prefix, 3);
    push_char(&mut s, '-');
    s.append(segment);
    s
}

/// The long CD key `PPPC-SSSSSSS` of a first segment, its check digit and a
/// checksum segment.
pub fn format_cd_long(prefix: usize, check_digit: usize, segment: &str) -> (r: String)
    requires
        prefix < 1000,
        check_digit < 10,
    ensures
        r@ == padded(prefix as nat, 3).push(digit_char(check_digit as nat)) + seq!['-'] + segment@,
{
    let mut s = String::new();
    push_padded(&mut s, prefix, 3);
    push_char(&mut s, ((check_digit as u8) + 48u8) as char);
    push_char(&mut s, '-');
    s.append(segment);
    s
}

/// The OEM key `DDDYY-OEM-0SSSSSS-TTTTT` of a day number, a two-digit year, a
/// checksum segment and a trailing number.
pub fn format_oem(date: usize, year: usize, segment: &str, tail: usize) -> (r: String)
    requires
        date < 1000,
        year < 100,
        tail < 100000,
    ensures
        r@ == padded(date as nat, 3) + padded(year as nat, 2) + oem_literal() + seq!['0']
            + segment@ + seq!['-'] + padded(tail as nat, 5),
{
    let mut s = String::new();
    push_padded(&mut s, date, 3);
    push_padded(&mut s, year, 2);
    s.append("-OEM-0");
    proof {
        reveal_strlit("-OEM-0");
    }
    assert("-OEM-0"@ =~= oem_literal() + seq!['0']);
    s.append(segment);
    push_char(&mut s, '-');
    push_padded(&mut s, tail, 5);
    assert(s@ =~= padded(date as nat, 3) + padded(year as nat, 2) + oem_literal() + seq!['0']
        + segment@ + seq!['-'] + padded(tail as nat, 5));
    s
}

/// Returns a random normal CD key: a first segment drawn from 000 to 998,
/// redrawn while it is 333, 444, 555, 666, 777 or 888, a dash, and a random
/// checksum segment of 7 digits.
pub fn cd_normal() -> (r: String)
    ensures
        generated_cd_normal(r@),
{
    let mut first_digits = random_within_range(0, 999);
    let mut draws: u64 = 1;
    while !is_allowed_prefix(first_digits) && draws < RETRY_LIMIT
        invariant
            first_digits < 999,
        decreases RETRY_LIMIT - draws,
    {
        first_digits = random_within_range(0, 999);
        draws = draws + 1;
    }
    if !is_allowed_prefix(first_digits) {
        // The retries ran out: the next value is never excluded.
        first_digits = first_digits + 1;
    }
    let segment = seven_div_generator(7);
    let r = format_cd_normal(first_digits, segment.as_str());
    proof {
        lemma_padded(first_digits as nat, 3);
        reveal_with_fuel(pow10, 4);
        assert(field(r@, 0, 3) =~= padded(first_digits as nat, 3));
        assert(field(r@, 4, 11) =~= segment@);
    }
    r
}

/// Returns a random long CD key: a first segment drawn from 000 to 999, its
/// check digit, a dash, and a random checksum segment of 7 digits.
pub fn cd_long() -> (r: String)
    ensures
        generated_cd_long(r@),
{
    let first_digits = random_within_range(0, 1000);
    let check_digit = long_check_digit(first_digits);
    let segment = seven_div_generator(7);
    let r = format_cd_long(first_digits, check_digit, segment.as_str());
    proof {
        lemma_padded(first_digits as nat, 3);
        reveal_with_fuel(pow10, 4);
        assert(field(r@, 0, 3) =~= padded(first_digits as nat, 3));
        assert(field(r@, 5, 12) =~= segment@);
    }
    r
}

/// Returns a random OEM key: a day number drawn from 001 to 366, a year drawn
/// from 95 to 98 with probability 5/6 and otherwise from 00 to 01, the literal
/// `-OEM-0`, a random checksum segment of 6 digits, a dash, and a trailing
/// number drawn from 00000 to 99998.
pub fn oem() -> (r: String)
    ensures
        generated_oem(r@),
{
    let date = random_within_range(1, 367);
    let year = if random_ratio(5, 6) {
        random_within_range(95, 99)
    } else {
        random_within_range(0, 2)
    };
    let segment = seven_div_generator(6);
    let tail = random_within_range(0, 99999);
    let r = format_oem(date, year, segment.as_str(), tail);
    proof {
        lemma_padded(date as nat, 3);
        lemma_padded(year as nat, 2);
        lemma_padded(tail as nat, 5);
        reveal_with_fuel(pow10, 6);
        assert(field(r@, 0, 3) =~= padded(date as nat, 3));
        assert(field(r@, 3, 5) =~= padded(year as nat, 2));
        assert(field(r@, 5, 10) =~= oem_literal());
        assert(field(r@, 11, 17) =~= segment@);
        assert(field(r@, 18, 23) =~= padded(tail as nat, 5));
    }
    r
}

/// Every normal CD key that the generator can emit passes validation.
pub proof fn lemma_cd_normal_round_trip(s: Seq<char>)
    requires
        generated_cd_normal(s),
    ensures
        valid_cd_normal(s),
{
    lemma_mod7_is_digit_sum_mod7(field(s, 4, 11));
}

/// Every long CD key that the generator can emit passes validation.
pub proof fn lemma_cd_long_round_trip(s: Seq<char>)
    requires
        generated_cd_long(s),
    ensures
        valid_cd_long(s),
{
    let head = field(s, 0, 3);
    let prefix = field(s, 0, 4);
    assert(prefix.drop_last() =~= head);
    assert(prefix.last() == s[3]);
    assert(all_digits(prefix)) by {
        assert forall|i: int| 0 <= i < prefix.len() implies is_digit(#[trigger] prefix[i]) by {
            if i < 3 {
                assert(prefix[i] == head[i]);
            }
        }
    }
    let p = digits_value(head);
    let c = char_value(s[3]);
    let v = digits_value(prefix);
    assert(v == p * 10 + c);
    vstd::arithmetic::div_mod::lemma_fundamental_div_mod_converse(v as int, 10, p as int, c as int);
    assert(digit_at(v, 1) == digit_at(v / 10, 0));
    lemma_mod7_is_digit_sum_mod7(field(s, 5, 12));
}

/// Every OEM key that the generator can emit passes validation.
pub proof fn lemma_oem_round_trip(s: Seq<char>)
    requires
        generated_oem(s),
    ensures
        valid_oem(s),
{
    let seg = field(s, 11, 17);
    let t = field(s, 10, 17);
    assert(t =~= seq!['0'] + seg);
    assert(all_digits(t)) by {
        assert forall|i: int| 0 <= i < t.len() implies is_digit(#[trigger] t[i]) by {
            if i > 0 {
                assert(t[i] == seg[i - 1]);
            }
        }
    }
    lemma_leading_zero(seg);
    lemma_digits_value_bound(seg);
    lemma_digit_at_beyond(digits_value(t), 6);
    lemma_mod7_is_digit_sum_mod7(seg);
}

} // verus!
