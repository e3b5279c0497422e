//! Checks whether a string is a valid key of each kind.
//!
//! Validation never fails: a string of the wrong length, a field that is not
//! all digits, a wrong separator, a field out of range or a failed checksum
//! all give `false`.

use vstd::prelude::*;
use vstd::string::*;

use crate::checksum::{
    all_digits, check_mod7, digit_at, digits_value, get_nth_digit_from_end, lemma_leading_digit, numerical_overflow,
    satisfies_mod7,
};
use crate::text::parse_digits;

verus! {

/// The characters `start..end` of `s`.
pub open spec fn field(s: Seq<char>, start: int, end: int) -> Seq<char> {
    s.subrange(start, end)
}

/// The first segments that a normal CD key may not have.
pub open spec fn is_excluded_prefix(n: nat) -> bool {
    n == 333 || n == 444 || n == 555 || n == 666 || n == 777 || n == 888 || n == 999
}

/// A normal CD key: `DDD-DDDDDDD`, the first segment not excluded, the second
/// passing the mod7 check over 7 digits.
pub open spec fn valid_cd_normal(s: Seq<char>) -> bool {
    &&& s.len() == 11
    &&& all_digits(field(s, 0, 3))
    &&& all_digits(field(s, 4, 11))
    &&& !is_excluded_prefix(digits_value(field(s, 0, 3)))
    &&& s[3] == '-'
    &&& satisfies_mod7(digits_value(field(s, 4, 11)), 7)
}

/// The check-digit rule of a long CD key's first segment: its last digit is
/// the one before plus 1 or plus 2, modulo 10.
pub open spec fn long_check_digit_ok(prefix: nat) -> bool {
    let d3 = digit_at(prefix, 1);
    let d4 = digit_at(prefix, 0);
    d4 == (d3 + 1) % 10 || d4 == (d3 + 2) % 10
}

/// A long CD key: `DDDD-DDDDDDD`, the first segment obeying the check-digit
/// rule, the second passing the mod7 check over 7 digits.
pub open spec fn valid_cd_long(s: Seq<char>) -> bool {
    &&& s.len() == 12
    &&& all_digits(field(s, 0, 4))
    &&& all_digits(field(s, 5, 12))
    &&& long_check_digit_ok(digits_value(field(s, 0, 4)))
    &&& s[4] == '-'
    &&& satisfies_mod7(digits_value(field(s, 5, 12)), 7)
}

/// The literal that follows the date and year of an OEM key.
pub open spec fn oem_literal() -> Seq<char> {
    seq!['-', 'O', 'E', 'M', '-']
}

/// Day numbers of an OEM key.
pub open spec fn valid_oem_date(date: nat) -> bool {
    1 <= date <= 366
}

/// Two-digit years of an OEM key: 95 to 99, or 00 to 02.
pub open spec fn valid_oem_year(year: nat) -> bool {
    (95 <= year <= 99) || year <= 2
}

/// An OEM key: `DDDYY-OEM-0DDDDDD-DDDDD` with a day number and a year in
/// range, and a seven-digit field whose leading digit (position 6 from the
/// units digit) is the literal 0 and whose low six digits pass the mod7 check.
/// The character between the last two fields is not read.
pub open spec fn valid_oem(s: Seq<char>) -> bool {
    &&& s.len() == 23
    &&& all_digits(field(s, 0, 3))
    &&& all_digits(field(s, 3, 5))
    &&& all_digits(field(s, 10, 17))
    &&& all_digits(field(s, 18, 23))
    &&& valid_oem_date(digits_value(field(s, 0, 3)))
    &&& valid_oem_year(digits_value(field(s, 3, 5)))
    &&& field(s, 5, 10) == oem_literal()
    &&& digit_at(digits_value(field(s, 10, 17)), 6) == 0
    &&& satisfies_mod7(digits_value(field(s, 10, 17)), 6)
}

/// A normal CD key whose first segment is excluded is rejected, whatever its
/// second segment holds.
pub proof fn lemma_excluded_prefix_rejected(s: Seq<char>)
    requires
        is_excluded_prefix(digits_value(field(s, 0, 3))),
    ensures
        !valid_cd_normal(s),
{
}

/// A string whose length differs from that of a kind of key is rejected as a
/// key of that kind.
pub proof fn lemma_wrong_length_rejected(s: Seq<char>)
    ensures
        s.len() != 11 ==> !valid_cd_normal(s),
        s.len() != 12 ==> !valid_cd_long(s),
        s.len() != 23 ==> !valid_oem(s),
{
}

/// Every accepted OEM key has the literal `-OEM-0` at characters 5 to 10.
pub proof fn lemma_oem_literal_zero(s: Seq<char>)
    requires
        valid_oem(s),
    ensures
        field(s, 5, 11) == oem_literal() + seq!['0'],
{
    let t = field(s, 10, 17);
    lemma_leading_digit(t);
    assert(t[0] == s[10]);
    assert(field(s, 5, 11) =~= field(s, 5, 10).push(s[10]));
    assert(oem_literal() + seq!['0'] =~= oem_literal().push('0'));
}

/// Whether `key` is a valid normal CD key.
pub fn cd_normal(key: &String) -> (r: bool)
    ensures
        r == valid_cd_normal(key@),
{
    let k = key.as_str();
    if k.unicode_len() != 11 {
        return false;
    }
    let first = parse_digits(k, 0, 3);
    let last = parse_digits(k, 4, 11);
    match (first, last) {
        (Some(first_segment), Some(last_segment)) => {
            let allowed = match first_segment {
                333 | 444 | 555 | 666 | 777 | 888 | 999 => false,
                _ => true,
            };
            allowed && k.get_char(3) == '-' && check_mod7(last_segment, 7)
        },
        _ => false,
    }
}

/// Whether `key` is a valid long CD key.
pub fn cd_long(key: &String) -> (r: bool)
    ensures
        r == valid_cd_long(key@),
{
    let k = key.as_str();
    if k.unicode_len() != 12 {
        return false;
    }
    let first = parse_digits(k, 0, 4);
    let last = parse_digits(k, 5, 12);
    match (first, last) {
        (Some(first_segment), Some(last_segment)) => {
            let third_digit = get_nth_digit_from_end(first_segment, 1);
            let fourth_digit = get_nth_digit_from_end(first_segment, 0);
            (fourth_digit == numerical_overflow(third_digit + 1, 10) || fourth_digit
                == numerical_overflow(third_digit + 2, 10)) && k.get_char(4) == '-'
                && check_mod7(last_segment, 7)
        },
        _ => false,
    }
}

/// Whether the characters `5..10` of `k` are the OEM literal (upper case).
fn has_oem_literal(k: &str) -> (r: bool)
    requires
        k@.len() >= 10,
    ensures
        r == (field(k@, 5, 10) == oem_literal()),
{
    let r = k.get_char(5) == '-' && k.get_char(6) == 'O' && k.get_char(7) == 'E' && k.get_char(8)
        == 'M' && k.get_char(9) == '-';
    assert(r ==> field(k@, 5, 10) =~= oem_literal());
    assert(field(k@, 5, 10) == oem_literal() ==> r) by {
        if field(k@, 5, 10) == oem_literal() {
            assert(field(k@, 5, 10)[0] == k@[5]);
            assert(field(k@, 5, 10)[1] == k@[6]);
            assert(field(k@, 5, 10)[2] == k@[7]);
            assert(field(k@, 5, 10)[3] == k@[8]);
            assert(field(k@, 5, 10)[4] == k@[9]);
        }
    }
    r
}

/// Whether `key` is a valid OEM key.
pub fn oem(key: &String) -> (r: bool)
    ensures
        r == valid_oem(key@),
{
    let k = key.as_str();
    if k.unicode_len() != 23 {
        return false;
    }
    let date = parse_digits(k, 0, 3);
    let year = parse_digits(k, 3, 5);
    let numerical = parse_digits(k, 10, 17);
    let tail = parse_digits(k, 18, 23);
    match (date, year, numerical, tail) {
        (Some(date), Some(year), Some(numerical_segment), Some(_)) => {
            date >= 1 && date <= 366 && ((year >= 95 && year <= 99) || year <= 2)
                && has_oem_literal(k) && get_nth_digit_from_end(numerical_segment, 6) == 0
                && check_mod7(numerical_segment, 6)
        },
        _ => false,
    }
}

} // verus!
