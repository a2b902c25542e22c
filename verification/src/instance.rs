//! Labeled data points, and parsing of the label field.
//!
//! A data point arrives as a text line `<label> <feature> <feature> ...`.
//! The features are machine floating-point literals and are converted
//! outside the verified library; the label is an unsigned decimal and is
//! parsed here, against an exact grammar: an optional leading `+`, then
//! one or more ASCII digits, with a value that fits the machine word.

use vstd::prelude::*;

verus! {

/// A data instance.
pub struct Instance<T> {
    /// The data point label.
    pub label: usize,
    /// The features of the data point.
    pub features: Vec<T>,
}

/// An ASCII decimal digit.
pub open spec fn is_digit(b: u8) -> bool {
    0x30 <= b <= 0x39
}

/// Every byte is an ASCII decimal digit.
pub open spec fn all_digits(s: Seq<u8>) -> bool {
    forall|i: int| 0 <= i < s.len() ==> is_digit(#[trigger] s[i])
}

/// The digit bytes of a label field: everything after an optional
/// leading `+`.
pub open spec fn digit_part(s: Seq<u8>) -> Seq<u8> {
    if s.len() > 0 && s[0] == 0x2b {
        s.skip(1)
    } else {
        s
    }
}

/// A well-formed label field: at least one digit after the optional sign.
pub open spec fn valid_label(s: Seq<u8>) -> bool {
    &&& digit_part(s).len() > 0
    &&& all_digits(digit_part(s))
}

/// The numeric value of a digit string, most significant digit first.
pub open spec fn decimal_value(s: Seq<u8>) -> nat
    decreases s.len(),
{
    if s.len() == 0 {
        0
    } else {
        (decimal_value(s.drop_last()) * 10 + (s.last() - 0x30)) as nat
    }
}

/// The value of a label field.
pub open spec fn label_value(s: Seq<u8>) -> nat {
    decimal_value(digit_part(s))
}

/// A longer digit prefix never has a smaller value.
proof fn lemma_decimal_prefix_le(s: Seq<u8>, a: int, b: int)
    requires
        0 <= a <= b <= s.len(),
        all_digits(s),
    ensures
        decimal_value(s.take(a)) <= decimal_value(s.take(b)),
    decreases b - a,
{
    if a < b {
        lemma_decimal_prefix_le(s, a, b - 1);
        assert(s.take(b).drop_last() =~= s.take(b - 1));
        assert(decimal_value(s.take(b)) >= decimal_value(s.take(b - 1))) by {
            assert(decimal_value(s.take(b)) == (decimal_value(s.take(b - 1)) * 10 + (s[b - 1]
                - 0x30)) as nat);
        }
    }
}

/// Parses a label field: an optional `+`, then one or more ASCII digits.
/// Fields of any other shape, and values above the machine word, are
/// rejected.
pub fn parse_label(field: &[u8]) -> (r: Option<usize>)
    ensures
        match r {
            Some(v) => valid_label(field@) && v == label_value(field@),
            None => !valid_label(field@) || label_value(field@) > usize::MAX,
        },
{
    let ghost digits = digit_part(field@);
    let start: usize = if field.len() > 0 && field[0] == 0x2b {
        1
    } else {
        0
    };
    proof {
        assert(digits =~= field@.skip(start as int));
    }
    let n = field.len();
    if start == n {
        return None;
    }
    let mut acc: usize = 0;
    let mut i: usize = start;
    while i < n
        invariant
            start <= i <= n,
            n == field@.len(),
            digits == field@.skip(start as int),
            digits == digit_part(field@),
            all_digits(digits.take(i - start)),
            acc == decimal_value(digits.take(i - start)),
        decreases n - i,
    {
        let b = field[i];
        if b < 0x30 || b > 0x39 {
            proof {
                assert(!all_digits(digits)) by {
                    assert(digits[i - start] == field@[i as int]);
                    assert(0 <= i - start < digits.len() && !is_digit(digits[i - start]));
                }
            }
            return None;
        }
        proof {
            assert(digits.take(i + 1 - start).drop_last() =~= digits.take(i - start));
            assert(digits.take(i + 1 - start).last() == field@[i as int]);
        }
        let digit = (b - 0x30) as usize;
        match acc.checked_mul(10) {
            Some(shifted) => {
                match shifted.checked_add(digit) {
                    Some(next) => {
                        acc = next;
                    },
                    None => {
                        proof {
                            if all_digits(digits) {
                                lemma_decimal_prefix_le(digits, i + 1 - start, digits.len() as int);
                                assert(digits.take(digits.len() as int) =~= digits);
                            }
                        }
                        return None;
                    },
                }
            },
            None => {
                proof {
                    if all_digits(digits) {
                        lemma_decimal_prefix_le(digits, i + 1 - start, digits.len() as int);
                        assert(digits.take(digits.len() as int) =~= digits);
                    }
                }
                return None;
            },
        }
        i = i + 1;
    }
    proof {
        assert(digits.take(n - start) =~= digits);
    }
    Some(acc)
}

} // verus!
