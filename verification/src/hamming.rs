//! Hamming distances that do not need a packed value: on bare code words, and
//! on strings.

use crate::popcount::{lemma_popcount_bound, popcount};
use vstd::prelude::*;
use vstd::std_specs::iter::IteratorSpec;

verus! {

/// The number of positions, as far as the shorter sequence reaches, at which
/// two sequences of characters differ.
pub open spec fn mismatches(a: Seq<char>, b: Seq<char>) -> nat
    decreases a.len(),
{
    if a.len() == 0 || b.len() == 0 {
        0
    } else {
        mismatches(a.drop_first(), b.drop_first()) + if a[0] != b[0] {
            1nat
        } else {
            0nat
        }
    }
}

/// No more positions differ than the shorter sequence has.
pub proof fn lemma_mismatches_bound(a: Seq<char>, b: Seq<char>)
    ensures
        mismatches(a, b) <= a.len(),
        mismatches(a, b) <= b.len(),
    decreases a.len(),
{
    if a.len() > 0 && b.len() > 0 {
        lemma_mismatches_bound(a.drop_first(), b.drop_first());
    }
}

/// The distance between two code words: half the number of bits in which they
/// differ. It knows of no undetermined positions.
pub fn hamming_code(alpha: u64, beta: u64) -> (d: u32)
    ensures
        d == popcount(alpha ^ beta) / 2,
        d <= 32,
{
    proof {
        lemma_popcount_bound(alpha ^ beta);
    }
    (alpha ^ beta).count_ones() / 2
}

/// The classical Hamming distance on strings, character by character. What the
/// longer string holds beyond the length of the shorter one is not compared.
pub fn hamming_str(alpha: &str, beta: &str) -> (d: u32)
    requires
        mismatches(alpha@, beta@) <= u32::MAX,
    ensures
        d == mismatches(alpha@, beta@),
{
    let mut dist: u32 = 0;
    let mut rest_a = alpha.chars();
    let mut rest_b = beta.chars();
    loop
        invariant
            dist + mismatches(rest_a.remaining(), rest_b.remaining()) == mismatches(alpha@, beta@),
            mismatches(alpha@, beta@) <= u32::MAX,
            rest_a.decrease() is Some,
        ensures
            dist == mismatches(alpha@, beta@),
        decreases rest_a.decrease()->0,
    {
        let a = match rest_a.next() {
            Some(a) => a,
            None => break,
        };
        let b = match rest_b.next() {
            Some(b) => b,
            None => break,
        };
        if a != b {
            dist += 1;
        }
    }
    dist
}

} // verus!
