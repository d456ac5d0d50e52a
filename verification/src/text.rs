//! Small text utilities: string equality and decimal parsing.
//!
//! The alignment directive of a layout hint carries an integer literal; it
//! is read here by a verified decimal parser whose contract matches the
//! standard library's parsing of unsigned integers (an optional leading
//! `+`, then one or more decimal digits, rejecting overflow).

use vstd::prelude::*;

verus! {

/// Relies on `<str as PartialEq>::eq`: two string slices compare equal
/// exactly when they consist of the same characters.
#[verifier::external_body]
pub(crate) fn str_eq(a: &str, b: &str) -> (r: bool)
    ensures
        r == (a@ == b@),
{
    a == b
}

pub open spec fn is_dec_digit(c: char) -> bool {
    48 <= c as int && c as int <= 57
}

pub open spec fn digit_value(c: char) -> int {
    c as int - 48
}

pub open spec fn all_dec_digits(s: Seq<char>) -> bool {
    forall|i: int| 0 <= i < s.len() ==> is_dec_digit(#[trigger] s[i])
}

/// The integer denoted by a sequence of decimal digits, most significant
/// first.
pub open spec fn dec_value(s: Seq<char>) -> int
    decreases s.len(),
{
    if s.len() == 0 {
        0
    } else {
        dec_value(s.drop_last()) * 10 + digit_value(s.last())
    }
}

/// The digits of a numeric literal: an optional leading `+` is not part of
/// them.
pub open spec fn dec_digits_of(s: Seq<char>) -> Seq<char> {
    if s.len() > 0 && s[0] == '+' {
        s.drop_first()
    } else {
        s
    }
}

/// What parsing an unsigned decimal literal yields: the denoted value when
/// the digits are well formed and small enough, and nothing otherwise.
pub open spec fn spec_parse_usize(s: Seq<char>) -> Option<usize> {
    let digits = dec_digits_of(s);
    if digits.len() > 0 && all_dec_digits(digits) && dec_value(digits) <= usize::MAX {
        Some(dec_value(digits) as usize)
    } else {
        None
    }
}

proof fn lemma_dec_value_nonneg(s: Seq<char>)
    requires
        all_dec_digits(s),
    ensures
        dec_value(s) >= 0,
    decreases s.len(),
{
    if s.len() > 0 {
        assert(all_dec_digits(s.drop_last()));
        lemma_dec_value_nonneg(s.drop_last());
    }
}

proof fn lemma_dec_value_step(s: Seq<char>, i: int)
    requires
        0 <= i < s.len(),
    ensures
        dec_value(s.take(i + 1)) == dec_value(s.take(i)) * 10 + digit_value(s[i]),
{
    assert(s.take(i + 1).drop_last() =~= s.take(i));
    assert(s.take(i + 1).last() == s[i]);
}

proof fn lemma_dec_value_mono(s: Seq<char>, i: int)
    requires
        all_dec_digits(s),
        0 <= i <= s.len(),
    ensures
        dec_value(s.take(i)) <= dec_value(s),
    decreases s.len() - i,
{
    if i < s.len() {
        lemma_dec_value_step(s, i);
        assert(all_dec_digits(s.take(i)));
        lemma_dec_value_nonneg(s.take(i));
        lemma_dec_value_mono(s, i + 1);
    } else {
        assert(s.take(i) =~= s);
    }
}

/// Parses an unsigned decimal literal, as the standard library would: an
/// optional leading `+`, then at least one decimal digit, with values over
/// `usize::MAX` rejected.
pub fn parse_usize(s: &str) -> (r: Option<usize>)
    ensures
        r == spec_parse_usize(s@),
{
    let n = s.unicode_len();
    let start: usize = if n > 0 && s.get_char(0) == '+' {
        1
    } else {
        0
    };
    let ghost digits = dec_digits_of(s@);
    proof {
        assert(digits =~= s@.skip(start as int));
    }
    if n == start {
        return None;
    }
    let mut val: usize = 0;
    let mut i: usize = start;
    while i < n
        invariant
            start <= i <= n,
            n == s@.len(),
            digits == dec_digits_of(s@),
            digits =~= s@.skip(start as int),
            all_dec_digits(digits.take(i - start)),
            val == dec_value(digits.take(i - start)),
        decreases n - i,
    {
        let c = s.get_char(i);
        let cu = c as u32;
        proof {
            assert(digits[i - start] == s@[i as int]);
        }
        if cu < 48 || cu > 57 {
            proof {
                assert(!is_dec_digit(digits[i - start]));
            }
            return None;
        }
        let d = (cu - 48) as usize;
        proof {
            lemma_dec_value_step(digits, i - start);
        }
        if val > (usize::MAX - d) / 10 {
            proof {
                let k = i - start;
                assert(all_dec_digits(digits.take(k + 1)));
                // val exceeding the floor of (MAX - d) / 10 puts the next
                // accumulated value past usize::MAX
                assert(10 * ((usize::MAX - d) / 10) + (usize::MAX - d) % 10 == usize::MAX - d);
                assert(dec_value(digits.take(k + 1)) > usize::MAX);
                if all_dec_digits(digits) {
                    lemma_dec_value_mono(digits, k + 1);
                }
            }
            return None;
        }
        proof {
            assert(10 * ((usize::MAX - d) / 10) + (usize::MAX - d) % 10 == usize::MAX - d);
            assert(val * 10 + d <= usize::MAX);
        }
        val = val * 10 + d;
        i = i + 1;
    }
    proof {
        assert(digits.take(i - start) =~= digits);
    }
    Some(val)
}

} // verus!
