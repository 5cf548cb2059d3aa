//! What holds of encoding, decoding and the distances together.

use crate::codec::BaseBits;
use crate::distance::{distance, lemma_words_count, mismatch_word, score, unknown_word, Policy};
use crate::packing::{
    aligned, bases_of, known_mask, lemma_leading, lemma_unpack_pack, pack, text_of, unpack,
};
use crate::popcount::popcount;
use crate::symbol::{Base, LETTER_A, LETTER_C, LETTER_G, LETTER_N, LETTER_T};
use crate::MAX_BASES;
use vstd::prelude::*;

verus! {

/// Whether a byte is the letter of a determined base.
pub open spec fn is_base_letter(b: u8) -> bool {
    b == LETTER_A || b == LETTER_C || b == LETTER_G || b == LETTER_T
}

/// The number of undetermined positions of a sequence.
pub open spec fn undetermined(s: Seq<Base>) -> nat
    decreases s.len(),
{
    if s.len() == 0 {
        0
    } else {
        undetermined(s.drop_last()) + if s.last().spec_is_determined() {
            0nat
        } else {
            1nat
        }
    }
}

/// Whether every position of a sequence is determined.
pub open spec fn all_determined(s: Seq<Base>) -> bool {
    forall|i: int| 0 <= i < s.len() ==> (#[trigger] s[i]).spec_is_determined()
}

/// Round trip: a text over `A`, `C`, `G`, `T` is the text of its bases, and,
/// where it is short enough to be encoded, the text of what its code word
/// unpacks to. So decoding the value that encoding made of it gives it back.
pub proof fn lemma_round_trip(text: Seq<u8>)
    requires
        forall|i: int| 0 <= i < text.len() ==> is_base_letter(#[trigger] text[i]),
    ensures
        text_of(bases_of(text)) == text,
        text.len() <= MAX_BASES ==> text_of(unpack(pack(bases_of(text)), text.len())) == text,
{
    assert(text_of(bases_of(text)) =~= text);
    if text.len() <= MAX_BASES {
        lemma_unpack_pack(bases_of(text));
    }
}

/// Wildcard round trip: every byte that is not the letter of a determined
/// base, the letter `N` among them, comes back as the letter `N`, and every
/// letter of a determined base as itself.
pub proof fn lemma_round_trip_lossy(text: Seq<u8>)
    ensures
        text_of(bases_of(text)).len() == text.len(),
        forall|i: int|
            0 <= i < text.len() ==> #[trigger] text_of(bases_of(text))[i] == if is_base_letter(
                text[i],
            ) {
                text[i]
            } else {
                LETTER_N
            },
        text.len() <= MAX_BASES ==> unpack(pack(bases_of(text)), text.len()) == bases_of(text),
{
    if text.len() <= MAX_BASES {
        lemma_unpack_pack(bases_of(text));
    }
}

/// Self-distance under the joker policy: a sequence is at distance 0 from
/// itself.
pub proof fn lemma_self_distance_joker(v: Seq<Base>)
    ensures
        distance(Policy::Joker, v, v) == 0,
    decreases v.len(),
{
    if v.len() > 0 {
        lemma_self_distance_joker(v.drop_last());
    }
}

/// Self-distance under the strict policy: the distance of a sequence from
/// itself is the number of its undetermined positions, each of which counts
/// once. It is 0 exactly if every position is determined.
pub proof fn lemma_self_distance_strict(v: Seq<Base>)
    ensures
        distance(Policy::Strict, v, v) == undetermined(v),
        all_determined(v) <==> distance(Policy::Strict, v, v) == 0,
    decreases v.len(),
{
    if v.len() > 0 {
        let t = v.drop_last();
        lemma_self_distance_strict(t);
        if all_determined(v) {
            assert forall|i: int| 0 <= i < t.len() implies (#[trigger] t[i]).spec_is_determined() by {
                assert(v[i].spec_is_determined());
            }
            assert(v[v.len() - 1].spec_is_determined());
        }
        if distance(Policy::Strict, v, v) == 0 {
            assert forall|i: int| 0 <= i < v.len() implies (#[trigger] v[i]).spec_is_determined() by {
                if i < t.len() {
                    assert(t[i].spec_is_determined());
                }
            }
        }
    }
}

/// Symmetry: under either policy the distance does not depend on the order
/// of the two sequences.
pub proof fn lemma_symmetry(policy: Policy, a: Seq<Base>, b: Seq<Base>)
    ensures
        distance(policy, a, b) == distance(policy, b, a),
    decreases a.len(),
{
    if a.len() > 0 && b.len() > 0 {
        lemma_symmetry(policy, a.drop_last(), b.drop_last());
    }
}

/// Symmetry of what the distance functions compute, for any two values: the
/// words that they count do not depend on the order of the values.
pub proof fn lemma_symmetry_words(alpha: BaseBits, beta: BaseBits)
    ensures
        mismatch_word(alpha.spec_code(), alpha.spec_mask(), beta.spec_code(), beta.spec_mask())
            == mismatch_word(
            beta.spec_code(),
            beta.spec_mask(),
            alpha.spec_code(),
            alpha.spec_mask(),
        ),
        unknown_word(alpha.spec_mask(), beta.spec_mask()) == unknown_word(
            beta.spec_mask(),
            alpha.spec_mask(),
        ),
{
    let (ca, ma) = (alpha.spec_code(), alpha.spec_mask());
    let (cb, mb) = (beta.spec_code(), beta.spec_mask());
    assert((ca ^ cb) & (ma & mb) == (cb ^ ca) & (mb & ma) && !(ma & mb) == !(mb & ma))
        by (bit_vector);
}

/// Each position adds its own score to the distance: without position `i`
/// the distance is less by the score of the two bases at `i`.
pub proof fn lemma_position_contributes(policy: Policy, a: Seq<Base>, b: Seq<Base>, i: int)
    requires
        a.len() == b.len(),
        0 <= i < a.len(),
    ensures
        distance(policy, a, b) == distance(policy, a.remove(i), b.remove(i)) + score(
            policy,
            a[i],
            b[i],
        ),
    decreases a.len(),
{
    if i == a.len() - 1 {
        assert(a.remove(i) =~= a.drop_last());
        assert(b.remove(i) =~= b.drop_last());
    } else {
        assert(a.remove(i).drop_last() =~= a.drop_last().remove(i));
        assert(b.remove(i).drop_last() =~= b.drop_last().remove(i));
        lemma_position_contributes(policy, a.drop_last(), b.drop_last(), i);
    }
}

/// Wildcard absorption: a position at which either sequence is undetermined
/// adds nothing under the joker policy and exactly 1 under the strict one,
/// whatever the other sequence holds there.
pub proof fn lemma_wildcard_absorption(a: Seq<Base>, b: Seq<Base>, i: int)
    requires
        a.len() == b.len(),
        0 <= i < a.len(),
        !a[i].spec_is_determined() || !b[i].spec_is_determined(),
    ensures
        score(Policy::Joker, a[i], b[i]) == 0,
        score(Policy::Strict, a[i], b[i]) == 1,
        distance(Policy::Joker, a, b) == distance(Policy::Joker, a.remove(i), b.remove(i)),
        distance(Policy::Strict, a, b) == distance(Policy::Strict, a.remove(i), b.remove(i)) + 1,
{
    lemma_position_contributes(Policy::Joker, a, b, i);
    lemma_position_contributes(Policy::Strict, a, b, i);
}

/// Where both sequences are determined throughout, the two policies agree.
pub proof fn lemma_policies_agree(a: Seq<Base>, b: Seq<Base>)
    requires
        all_determined(a),
        all_determined(b),
    ensures
        distance(Policy::Strict, a, b) == distance(Policy::Joker, a, b),
    decreases a.len(),
{
    if a.len() > 0 && b.len() > 0 {
        let (s, t) = (a.drop_last(), b.drop_last());
        assert forall|i: int| 0 <= i < s.len() implies (#[trigger] s[i]).spec_is_determined() by {
            assert(a[i].spec_is_determined());
        }
        assert forall|i: int| 0 <= i < t.len() implies (#[trigger] t[i]).spec_is_determined() by {
            assert(b[i].spec_is_determined());
        }
        assert(a[a.len() - 1].spec_is_determined());
        assert(b[b.len() - 1].spec_is_determined());
        lemma_policies_agree(s, t);
    }
}

/// The mask of a sequence that is determined throughout has every bit set.
pub proof fn lemma_mask_of_determined(s: Seq<Base>)
    requires
        all_determined(s),
    ensures
        known_mask(s) == u64::MAX,
    decreases s.len(),
{
    if s.len() > 0 {
        let t = s.drop_last();
        assert forall|i: int| 0 <= i < t.len() implies (#[trigger] t[i]).spec_is_determined() by {
            assert(s[i].spec_is_determined());
        }
        assert(s[s.len() - 1].spec_is_determined());
        lemma_mask_of_determined(t);
        assert((0xffff_ffff_ffff_ffffu64 << 3) | 7 == 0xffff_ffff_ffff_ffffu64) by (bit_vector);
    }
}

/// The distance on bare code words is the joker distance where neither
/// sequence has an undetermined position.
pub proof fn lemma_code_distance(a: Seq<Base>, b: Seq<Base>)
    requires
        a.len() <= MAX_BASES,
        b.len() <= MAX_BASES,
        all_determined(a),
        all_determined(b),
    ensures
        popcount(pack(a) ^ pack(b)) / 2 == distance(Policy::Joker, aligned(a), aligned(b)),
{
    lemma_mask_of_determined(a);
    lemma_mask_of_determined(b);
    lemma_leading((MAX_BASES - a.len()) as nat, a);
    lemma_leading((MAX_BASES - b.len()) as nat, b);
    lemma_words_count(aligned(a), aligned(b));
    let (p, q) = (pack(a), pack(b));
    assert((p ^ q) & (0xffff_ffff_ffff_ffffu64 & 0xffff_ffff_ffff_ffffu64) == p ^ q) by (bit_vector);
}

} // verus!
