//! The address column width for list output: the decimal digit count of
//! the shorter source's length, so every record's address fits one column.

use vstd::prelude::*;

verus! {

/// The decimal digit count of `n`; 0 still takes one digit to write.
pub open spec fn spec_width(n: nat) -> nat
    decreases n,
{
    if n < 10 {
        1
    } else {
        1 + spec_width(n / 10)
    }
}

/// Powers of ten, for bounding digit counts.
spec fn pow10(k: nat) -> nat
    decreases k,
{
    if k == 0 {
        1
    } else {
        10 * pow10((k - 1) as nat)
    }
}

/// A number below the `k`-th power of ten takes at most `k` digits.
proof fn lemma_width_bound(n: nat, k: nat)
    requires
        1 <= k,
        n < pow10(k),
    ensures
        spec_width(n) <= k,
    decreases k,
{
    if n >= 10 {
        assert(pow10(1) == 10) by {
            reveal_with_fuel(pow10, 2);
        }
        let p = pow10((k - 1) as nat);
        assert(pow10(k) == 10 * p);
        assert(n / 10 < p) by {
            vstd::arithmetic::div_mod::lemma_fundamental_div_mod(n as int, 10);
        }
        lemma_width_bound(n / 10, (k - 1) as nat);
    }
}

/// The column width for addresses: the decimal digit count of the smaller
/// of the two source lengths, at least 1 even for an empty source.
pub fn address_width(len_a: usize, len_b: usize) -> (w: usize)
    ensures
        w == spec_width(
            if len_a <= len_b {
                len_a as nat
            } else {
                len_b as nat
            },
        ),
{
    let n: usize = if len_a <= len_b {
        len_a
    } else {
        len_b
    };
    proof {
        assert(pow10(20) == 100000000000000000000) by {
            reveal_with_fuel(pow10, 21);
        }
        lemma_width_bound(n as nat, 20);
    }
    let mut w: usize = 1;
    let mut m: usize = n;
    while m >= 10
        invariant
            1 <= w,
            w + spec_width(m as nat) == spec_width(n as nat) + 1,
            spec_width(n as nat) <= 20,
        decreases m,
    {
        m = m / 10;
        w = w + 1;
    }
    w
}

} // verus!
