//! Reading and writing fixed-width decimal fields of a key string.

use vstd::arithmetic::div_mod::*;
use vstd::prelude::*;
use vstd::string::*;

use crate::checksum::{all_digits, digits_value, is_digit, pow10};

verus! {

/// `10^k` stays below `10^8` for `k <= 8`.
proof fn lemma_pow10_small(k: nat)
    requires
        k <= 8,
    ensures
        pow10(k) <= 100000000,
    decreases 8 - k,
{
    reveal_with_fuel(pow10, 9);
    if k < 8 {
        lemma_pow10_small(k + 1);
        assert(pow10(k + 1) == 10 * pow10(k));
    }
}

/// Parses the characters `start..end` of `key` as an unsigned decimal number:
/// `None` unless every one of them is a digit.
pub fn parse_digits(key: &str, start: usize, end: usize) -> (r: Option<usize>)
    requires
        start <= end <= key@.len(),
        end - start <= 9,
    ensures
        r.is_some() == all_digits(key@.subrange(start as int, end as int)),
        r matches Some(v) ==> v == digits_value(key@.subrange(start as int, end as int)),
{
    let mut value: usize = 0;
    let mut i: usize = start;
    while i < end
        invariant
            start <= i <= end <= key@.len(),
            end - start <= 9,
            all_digits(key@.subrange(start as int, i as int)),
            value == digits_value(key@.subrange(start as int, i as int)),
            value < pow10((i - start) as nat),
        decreases end - i,
    {
        let c = key.get_char(i);
        let ghost before = key@.subrange(start as int, i as int);
        let ghost after = key@.subrange(start as int, i + 1);
        assert(after.drop_last() =~= before);
        assert(after.last() == c);
        if c < '0' || c > '9' {
            assert(!is_digit(after[after.len() - 1]));
            proof {
                assert forall|j: int|
                    start <= j <= end && j > i implies !all_digits(
                    #[trigger] key@.subrange(start as int, j),
                ) by {
                    assert(key@.subrange(start as int, j)[i - start] == c);
                }
            }
            return None;
        }
        proof {
            lemma_pow10_small((i - start) as nat);
        }
        value = value * 10 + (c as u32 - '0' as u32) as usize;
        assert(all_digits(after)) by {
            assert forall|j: int| 0 <= j < after.len() implies is_digit(#[trigger] after[j]) by {
                if j < before.len() {
                    assert(after[j] == before[j]);
                }
            }
        }
        i = i + 1;
    }
    Some(value)
}

/// Relies on `String::push`: appends one character at the end.
#[verifier::external_body]
pub(crate) fn push_char(s: &mut String, c: char)
    ensures
        final(s)@ == old(s)@.push(c),
{
    s.push(c);
}

/// The digit character of `d`.
pub open spec fn digit_char(d: nat) -> char {
    (d + 48) as char
}

/// The `width`-character zero-padded decimal text of `n` (its `width` lowest
/// digits).
pub open spec fn padded(n: nat, width: nat) -> Seq<char>
    decreases width,
{
    if width == 0 {
        Seq::empty()
    } else {
        padded(n / 10, (width - 1) as nat).push(digit_char(n % 10))
    }
}

/// Zero-padded text is made of digits, has the requested width, and reads
/// back as the number whenever the number fits in that width.
pub proof fn lemma_padded(n: nat, width: nat)
    ensures
        padded(n, width).len() == width,
        all_digits(padded(n, width)),
        n < pow10(width) ==> digits_value(padded(n, width)) == n,
    decreases width,
{
    if width > 0 {
        let w1 = (width - 1) as nat;
        lemma_padded(n / 10, w1);
        let p = padded(n, width);
        let q = padded(n / 10, w1);
        assert(p.drop_last() =~= q);
        assert(all_digits(p)) by {
            assert forall|j: int| 0 <= j < p.len() implies is_digit(#[trigger] p[j]) by {
                if j < q.len() {
                    assert(p[j] == q[j]);
                }
            }
        }
        if n < pow10(width) {
            lemma_fundamental_div_mod(n as int, 10);
            assert(n / 10 < pow10(w1));
        }
    }
}

/// Appends the `width`-digit zero-padded text of `n`.
pub fn push_padded(s: &mut String, n: usize, width: usize)
    ensures
        final(s)@ == old(s)@ + padded(n as nat, width as nat),
    decreases width,
{
    if width > 0 {
        push_padded(s, n / 10, width - 1);
        push_char(s, ((n % 10) as u8 + 48u8) as char);
        assert(final(s)@ =~= old(s)@ + padded(n as nat, width as nat));
    }
}

} // verus!
