//! The number of set bits of a word, and how it splits over three-bit groups.

use vstd::arithmetic::power2::{lemma2_to64, lemma2_to64_rest, lemma_pow2_unfold, pow2};
use vstd::prelude::*;

verus! {

/// The number of ones in the binary representation of `x`: the sum of its
/// binary digits.
pub open spec fn popcount(x: u64) -> nat
    decreases x,
{
    if x == 0 {
        0
    } else {
        (x % 2) as nat + popcount(x / 2)
    }
}

/// `u64::count_ones` of the standard library, which is documented to return
/// the number of ones in the binary representation of its argument. The
/// contract states exactly that, and nothing proves it.
pub assume_specification[ u64::count_ones ](x: u64) -> (r: u32)
    ensures
        r == popcount(x),
;

/// The lowest digit splits off a count, also for zero.
pub proof fn lemma_popcount_step(x: u64)
    ensures
        popcount(x) == (x % 2) + popcount(x / 2),
{
    reveal_with_fuel(popcount, 2);
}

/// The counts of the three-bit groups.
pub proof fn lemma_popcount_small()
    ensures
        popcount(0) == 0,
        popcount(1) == 1,
        popcount(2) == 1,
        popcount(3) == 2,
        popcount(4) == 1,
        popcount(5) == 2,
        popcount(6) == 2,
        popcount(7) == 3,
{
    reveal_with_fuel(popcount, 4);
}

/// The lowest three-bit group splits off its count.
pub proof fn lemma_popcount_group(x: u64)
    ensures
        popcount(x) == popcount(x % 8) + popcount(x / 8),
{
    let g: u64 = x % 8;
    lemma_popcount_step(x);
    lemma_popcount_step(x / 2);
    lemma_popcount_step(x / 2 / 2);
    lemma_popcount_step(g);
    lemma_popcount_step(g / 2);
    lemma_popcount_step(g / 2 / 2);
    assert(g / 2 / 2 / 2 == 0);
    assert(x / 2 / 2 / 2 == x / 8);
    assert(g % 2 == x % 2);
    assert(g / 2 % 2 == x / 2 % 2);
    assert(g / 2 / 2 % 2 == x / 2 / 2 % 2);
}

/// A word below `2^n` has at most `n` bits set.
pub proof fn lemma_popcount_below(x: u64, n: nat)
    requires
        x < pow2(n),
    ensures
        popcount(x) <= n,
    decreases n,
{
    if x != 0 {
        if n == 0 {
            lemma2_to64();
        } else {
            lemma_pow2_unfold(n);
            lemma_popcount_below(x / 2, (n - 1) as nat);
        }
    }
}

/// No word has more than 64 bits set.
pub proof fn lemma_popcount_bound(x: u64)
    ensures
        popcount(x) <= 64,
{
    lemma2_to64_rest();
    lemma_popcount_below(x, 64);
}

} // verus!
