//! Validating the skip-count argument: a decimal number, optionally
//! preceded by a plus sign, that must fit the machine's size type.
//! Anything else is an invalid configuration.

use vstd::prelude::*;

verus! {

/// Whether the byte is an ASCII decimal digit.
pub open spec fn is_ascii_digit(c: u8) -> bool {
    0x30 <= c <= 0x39
}

/// The numeric value of a digit byte.
pub open spec fn digit_value(c: u8) -> int {
    c - 0x30
}

/// Whether every byte of the sequence is a decimal digit.
pub open spec fn all_digits(s: Seq<u8>) -> bool {
    forall|i: int| 0 <= i < s.len() ==> is_ascii_digit(#[trigger] s[i])
}

/// The number a digit sequence denotes in decimal.
pub open spec fn digits_value(s: Seq<u8>) -> int
    decreases s.len(),
{
    if s.len() == 0 {
        0
    } else {
        digits_value(s.drop_last()) * 10 + digit_value(s.last())
    }
}

/// The digits of a skip argument: everything after one optional leading
/// plus sign.
pub open spec fn digit_part(s: Seq<u8>) -> Seq<u8> {
    if s.len() > 0 && s[0] == 0x2b {
        s.drop_first()
    } else {
        s
    }
}

/// What a skip argument denotes: at least one digit after the optional
/// sign, digits throughout, and a value that fits the machine's size
/// type. Anything else is malformed and denotes nothing.
pub open spec fn spec_parse_skip(s: Seq<u8>) -> Option<int> {
    let d = digit_part(s);
    if d.len() > 0 && all_digits(d) && digits_value(d) <= usize::MAX {
        Some(digits_value(d))
    } else {
        None
    }
}

/// A digit sequence denotes a non-negative number.
proof fn lemma_digits_value_nonneg(s: Seq<u8>)
    requires
        all_digits(s),
    ensures
        digits_value(s) >= 0,
    decreases s.len(),
{
    if s.len() > 0 {
        assert(all_digits(s.drop_last()));
        lemma_digits_value_nonneg(s.drop_last());
    }
}

/// Reading further digits never shrinks the value: a digit prefix denotes
/// at most what the whole sequence denotes.
proof fn lemma_digits_value_monotone(s: Seq<u8>, k: int)
    requires
        0 <= k <= s.len(),
        all_digits(s),
    ensures
        digits_value(s.take(k)) <= digits_value(s),
    decreases s.len() - k,
{
    if k == s.len() {
        assert(s.take(k) =~= s);
    } else {
        assert(s.take(k + 1).drop_last() =~= s.take(k));
        assert(s.take(k + 1).last() == s[k]);
        assert(all_digits(s.take(k)));
        lemma_digits_value_nonneg(s.take(k));
        assert(digits_value(s.take(k + 1)) == digits_value(s.take(k)) * 10 + digit_value(s[k]));
        lemma_digits_value_monotone(s, k + 1);
    }
}

/// Parses a skip-count argument. Returns the denoted value exactly when
/// the argument is well formed: one optional leading plus sign, then at
/// least one decimal digit and nothing else, denoting a value that fits
/// the machine's size type. Returns `None` on every other input.
pub fn parse_skip(s: &[u8]) -> (r: Option<usize>)
    ensures
        match r {
            Some(v) => spec_parse_skip(s@) == Some(v as int),
            None => spec_parse_skip(s@) is None,
        },
{
    let ghost d = digit_part(s@);
    let start: usize = if s.len() > 0 && s[0] == 0x2b {
        1
    } else {
        0
    };
    proof {
        assert(d.len() == s@.len() - start);
        assert forall|i: int| 0 <= i < d.len() implies d[i] == s@[start + i] by {}
    }
    if s.len() == start {
        return None;
    }
    let mut acc: usize = 0;
    let mut j: usize = start;
    while j < s.len()
        invariant
            start <= j <= s@.len(),
            start <= 1,
            d == digit_part(s@),
            d.len() == s@.len() - start,
            forall|i: int| 0 <= i < d.len() ==> #[trigger] d[i] == s@[start + i],
            all_digits(d.take(j - start)),
            acc == digits_value(d.take(j - start)),
        decreases s@.len() - j,
    {
        let c = s[j];
        let ghost k = j - start;
        proof {
            assert(d[k] == c);
        }
        if c < 0x30 || c > 0x39 {
            assert(!all_digits(d));
            return None;
        }
        proof {
            assert(d.take(k + 1).drop_last() =~= d.take(k));
            assert(d.take(k + 1).last() == d[k]);
            assert(digits_value(d.take(k + 1)) == digits_value(d.take(k)) * 10 + digit_value(d[k]));
            assert(all_digits(d.take(k + 1)));
        }
        let dv = (c - 0x30) as usize;
        if acc > (usize::MAX - dv) / 10 {
            proof {
                vstd::arithmetic::div_mod::lemma_fundamental_div_mod(
                    usize::MAX - dv,
                    10,
                );
                assert(digits_value(d.take(k + 1)) > usize::MAX);
                if all_digits(d) {
                    lemma_digits_value_monotone(d, k + 1);
                }
            }
            return None;
        }
        acc = acc * 10 + dv;
        j += 1;
    }
    proof {
        assert(d.take(j - start) =~= d);
    }
    Some(acc)
}

} // verus!
