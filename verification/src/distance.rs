//! Hamming distances between two packed sequences, computed on the words
//! without decoding, under two policies for undetermined positions.

use crate::codec::BaseBits;
use crate::packing::{
    aligned, fits, known_mask, leading, lemma_fits_grow, lemma_leading, lemma_push_group,
    lemma_unpack_len, pack,
};
use crate::popcount::{lemma_popcount_group, lemma_popcount_small, popcount};
use crate::symbol::Base;
use crate::{ENCODING_DIST, ENCODING_LENGTH, MAX_BASES};
use vstd::prelude::*;

verus! {

/// How an undetermined position is scored.
pub enum Policy {
    /// An undetermined base matches every base.
    Joker,
    /// An undetermined base matches no base, not even another undetermined one.
    Strict,
}

/// What one position adds to the distance: 1 for a mismatch, 0 for a match.
pub open spec fn score(policy: Policy, x: Base, y: Base) -> nat {
    if x.spec_is_determined() && y.spec_is_determined() {
        if x == y {
            0
        } else {
            1
        }
    } else {
        match policy {
            Policy::Joker => 0,
            Policy::Strict => 1,
        }
    }
}

/// The distance between two sequences under a policy: the number of
/// mismatching positions. Sequences of different lengths are compared from
/// their last bases backwards, as far as the shorter one reaches.
pub open spec fn distance(policy: Policy, a: Seq<Base>, b: Seq<Base>) -> nat
    decreases a.len(),
{
    if a.len() == 0 || b.len() == 0 {
        0
    } else {
        distance(policy, a.drop_last(), b.drop_last()) + score(policy, a.last(), b.last())
    }
}

/// The number of positions at which at least one of two sequences is
/// undetermined.
pub open spec fn unknowns(a: Seq<Base>, b: Seq<Base>) -> nat
    decreases a.len(),
{
    if a.len() == 0 || b.len() == 0 {
        0
    } else {
        unknowns(a.drop_last(), b.drop_last()) + if a.last().spec_is_determined()
            && b.last().spec_is_determined() {
            0nat
        } else {
            1nat
        }
    }
}

/// The word whose set bits are the differing code bits at the positions where
/// both sequences are determined.
pub open spec fn mismatch_word(code_a: u64, mask_a: u64, code_b: u64, mask_b: u64) -> u64 {
    (code_a ^ code_b) & (mask_a & mask_b)
}

/// The word whose set bits are those of the positions where at least one of
/// the sequences is undetermined.
pub open spec fn unknown_word(mask_a: u64, mask_b: u64) -> u64 {
    !(mask_a & mask_b)
}

/// The two words of a pair of sequences grow by one group when each sequence
/// grows by one base.
proof fn lemma_words_push(p: u64, m: u64, q: u64, k: u64, bx: u64, mx: u64, by: u64, my: u64)
    by (bit_vector)
    requires
        bx <= 7,
        by <= 7,
        mx <= 7,
        my <= 7,
    ensures
        mismatch_word((p << 3) | bx, (m << 3) | mx, (q << 3) | by, (k << 3) | my) == (mismatch_word(
            p,
            m,
            q,
            k,
        ) << 3) | ((bx ^ by) & (mx & my)),
        unknown_word((m << 3) | mx, (k << 3) | my) == (unknown_word(m, k) << 3) | (!(mx & my) & 7),
{
}

/// The groups that one position adds to the two words.
proof fn lemma_group_values(bx: u64, mx: u64, by: u64, my: u64)
    by (bit_vector)
    requires
        bx == 0 || bx == 3 || bx == 5 || bx == 6 || bx == 4,
        by == 0 || by == 3 || by == 5 || by == 6 || by == 4,
        mx == 0 || mx == 7,
        my == 0 || my == 7,
        mx == 0 <==> bx == 4,
        my == 0 <==> by == 4,
    ensures
        mx == 0 || my == 0 ==> (bx ^ by) & (mx & my) == 0 && !(mx & my) & 7 == 7,
        mx == 7 && my == 7 ==> !(mx & my) & 7 == 0,
        mx == 7 && my == 7 && bx == by ==> (bx ^ by) & (mx & my) == 0,
        mx == 7 && my == 7 && bx != by ==> {
            let g = (bx ^ by) & (mx & my);
            g == 3 || g == 5 || g == 6
        },
{
}

/// On two sequences of one length, at most 21, the mismatch word holds two
/// set bits for each position that counts under the joker policy, and the
/// unknown word three for each position that is undetermined in either.
pub proof fn lemma_words_count(a: Seq<Base>, b: Seq<Base>)
    requires
        a.len() == b.len(),
        a.len() <= MAX_BASES,
    ensures
        fits(mismatch_word(pack(a), known_mask(a), pack(b), known_mask(b)), a.len()),
        fits(unknown_word(known_mask(a), known_mask(b)), a.len()),
        popcount(mismatch_word(pack(a), known_mask(a), pack(b), known_mask(b))) == 2 * distance(
            Policy::Joker,
            a,
            b,
        ),
        popcount(unknown_word(known_mask(a), known_mask(b))) == 3 * unknowns(a, b),
    decreases a.len(),
{
    lemma_popcount_small();
    if a.len() == 0 {
        assert(mismatch_word(0, u64::MAX, 0, u64::MAX) == 0 && unknown_word(u64::MAX, u64::MAX) == 0
            && 0u64 >> 0u64 == 0) by (bit_vector);
    } else {
        let (s, x) = (a.drop_last(), a.last());
        let (t, y) = (b.drop_last(), b.last());
        lemma_words_count(s, t);
        let w = mismatch_word(pack(s), known_mask(s), pack(t), known_mask(t));
        let u = unknown_word(known_mask(s), known_mask(t));
        let (bx, mx) = (x.spec_bits(), x.spec_known_bits());
        let (by, my) = (y.spec_bits(), y.spec_known_bits());
        let g = (bx ^ by) & (mx & my);
        let h = !(mx & my) & 7;
        lemma_words_push(pack(s), known_mask(s), pack(t), known_mask(t), bx, mx, by, my);
        lemma_group_values(bx, mx, by, my);
        lemma_fits_grow(w, g, s.len() as u64);
        lemma_fits_grow(u, h, s.len() as u64);
        lemma_push_group(w, g);
        lemma_push_group(u, h);
        lemma_popcount_group(mismatch_word(pack(a), known_mask(a), pack(b), known_mask(b)));
        lemma_popcount_group(unknown_word(known_mask(a), known_mask(b)));
    }
}

/// Under the strict policy every position that is undetermined in either
/// sequence counts, on top of what counts under the joker policy.
pub proof fn lemma_strict_is_joker_plus_unknowns(a: Seq<Base>, b: Seq<Base>)
    ensures
        distance(Policy::Strict, a, b) == distance(Policy::Joker, a, b) + unknowns(a, b),
    decreases a.len(),
{
    if a.len() > 0 && b.len() > 0 {
        lemma_strict_is_joker_plus_unknowns(a.drop_last(), b.drop_last());
    }
}

/// Bases `A` in front of both sequences, as many for the one as for the
/// other, change no distance between two sequences of one length.
pub proof fn lemma_distance_leading(policy: Policy, k: nat, a: Seq<Base>, b: Seq<Base>)
    requires
        a.len() == b.len(),
    ensures
        distance(policy, leading(k) + a, leading(k) + b) == distance(policy, a, b),
    decreases a.len(), k,
{
    let (s, t) = (leading(k) + a, leading(k) + b);
    if a.len() > 0 {
        assert(s.drop_last() =~= leading(k) + a.drop_last());
        assert(t.drop_last() =~= leading(k) + b.drop_last());
        lemma_distance_leading(policy, k, a.drop_last(), b.drop_last());
    } else if k > 0 {
        assert(s.drop_last() =~= leading((k - 1) as nat) + a);
        assert(t.drop_last() =~= leading((k - 1) as nat) + b);
        lemma_distance_leading(policy, (k - 1) as nat, a, b);
    }
}

/// No distance exceeds the length of the shorter sequence.
pub proof fn lemma_distance_bound(policy: Policy, a: Seq<Base>, b: Seq<Base>)
    ensures
        distance(policy, a, b) <= a.len(),
        distance(policy, a, b) <= b.len(),
    decreases a.len(),
{
    if a.len() > 0 && b.len() > 0 {
        lemma_distance_bound(policy, a.drop_last(), b.drop_last());
    }
}

/// What the two words of a pair of well-formed values count.
pub proof fn lemma_values_count(alpha: BaseBits, beta: BaseBits)
    requires
        alpha.wf(),
        beta.wf(),
    ensures
        popcount(
            mismatch_word(alpha.spec_code(), alpha.spec_mask(), beta.spec_code(), beta.spec_mask()),
        ) == 2 * distance(Policy::Joker, aligned(alpha@), aligned(beta@)),
        popcount(unknown_word(alpha.spec_mask(), beta.spec_mask())) == 3 * unknowns(
            aligned(alpha@),
            aligned(beta@),
        ),
        alpha@.len() == alpha.spec_len(),
        beta@.len() == beta.spec_len(),
{
    lemma_unpack_len(alpha.spec_code(), alpha.spec_len());
    lemma_unpack_len(beta.spec_code(), beta.spec_len());
    lemma_leading((MAX_BASES - alpha@.len()) as nat, alpha@);
    lemma_leading((MAX_BASES - beta@.len()) as nat, beta@);
    lemma_words_count(aligned(alpha@), aligned(beta@));
}

/// The distance under the joker policy: the number of positions at which both
/// sequences are determined and differ. An undetermined base matches anything.
///
/// Two values of one length are compared position by position. Values of
/// different lengths are compared as their words stand: aligned at their last
/// bases, the shorter one filled up at its front with `A`.
pub fn hamming_dist_nany(alpha: &BaseBits, beta: &BaseBits) -> (d: u32)
    ensures
        d == popcount(
            mismatch_word(alpha.spec_code(), alpha.spec_mask(), beta.spec_code(), beta.spec_mask()),
        ) / 2,
        alpha.wf() && beta.wf() ==> d == distance(Policy::Joker, aligned(alpha@), aligned(beta@)),
        alpha.wf() && beta.wf() && alpha@.len() == beta@.len() ==> d == distance(
            Policy::Joker,
            alpha@,
            beta@,
        ) && d <= alpha@.len(),
{
    proof {
        if alpha.wf() && beta.wf() {
            lemma_values_count(*alpha, *beta);
            if alpha@.len() == beta@.len() {
                lemma_distance_leading(Policy::Joker, (MAX_BASES - alpha@.len()) as nat, alpha@, beta@);
                lemma_distance_bound(Policy::Joker, alpha@, beta@);
            }
        }
    }
    ((alpha.code() ^ beta.code()) & (alpha.mask() & beta.mask())).count_ones() / ENCODING_DIST
}

/// The distance under the strict policy: the number of positions at which the
/// sequences differ or at least one of them is undetermined. Two undetermined
/// bases at one position count as a mismatch too.
///
/// Values of different lengths are compared as under the joker policy.
pub fn hamming_dist_none(alpha: &BaseBits, beta: &BaseBits) -> (d: u32)
    ensures
        d == popcount(
            mismatch_word(alpha.spec_code(), alpha.spec_mask(), beta.spec_code(), beta.spec_mask()),
        ) / 2 + popcount(unknown_word(alpha.spec_mask(), beta.spec_mask())) / 3,
        alpha.wf() && beta.wf() ==> d == distance(Policy::Strict, aligned(alpha@), aligned(beta@)),
        alpha.wf() && beta.wf() && alpha@.len() == beta@.len() ==> d == distance(
            Policy::Strict,
            alpha@,
            beta@,
        ) && d <= alpha@.len(),
{
    proof {
        if alpha.wf() && beta.wf() {
            lemma_values_count(*alpha, *beta);
            lemma_strict_is_joker_plus_unknowns(aligned(alpha@), aligned(beta@));
            if alpha@.len() == beta@.len() {
                lemma_distance_leading(Policy::Strict, (MAX_BASES - alpha@.len()) as nat, alpha@, beta@);
                lemma_distance_bound(Policy::Strict, alpha@, beta@);
            }
        }
    }
    let nbits_and = alpha.mask() & beta.mask();
    (((alpha.code() ^ beta.code()) & nbits_and).count_ones() / ENCODING_DIST)
        + ((!nbits_and).count_ones() / ENCODING_LENGTH)
}

} // verus!
