//! The packing itself, as mathematics: the code word and the known-base mask
//! of a sequence of bases, and the sequence that a code word stands for.

use crate::symbol::Base;
use crate::MAX_BASES;
use vstd::prelude::*;

verus! {

/// The bases that a text stands for, byte by byte.
pub open spec fn bases_of(text: Seq<u8>) -> Seq<Base> {
    text.map_values(|b: u8| Base::spec_from_byte(b))
}

/// The text that a sequence of bases is written as, base by base.
pub open spec fn text_of(s: Seq<Base>) -> Seq<u8> {
    s.map_values(|b: Base| b.spec_to_byte())
}

/// The code word of a sequence: one three-bit group per base, the first base
/// in the highest group that is used, the last base in the lowest group.
pub open spec fn pack(s: Seq<Base>) -> u64
    decreases s.len(),
{
    if s.len() == 0 {
        0
    } else {
        (pack(s.drop_last()) << 3) | s.last().spec_bits()
    }
}

/// The known-base mask of a sequence: the group of a determined base is all
/// ones, the group of an undetermined one all zeros, and every bit above the
/// groups in use is set.
pub open spec fn known_mask(s: Seq<Base>) -> u64
    decreases s.len(),
{
    if s.len() == 0 {
        u64::MAX
    } else {
        (known_mask(s.drop_last()) << 3) | s.last().spec_known_bits()
    }
}

/// The sequence of `n` bases that the lowest `n` groups of a code word stand
/// for, the lowest group last.
pub open spec fn unpack(code: u64, n: nat) -> Seq<Base>
    decreases n,
{
    if n == 0 {
        Seq::empty()
    } else {
        unpack(code / 8, (n - 1) as nat).push(Base::spec_from_bits(code % 8))
    }
}

/// Unpacking `n` groups gives `n` bases.
pub proof fn lemma_unpack_len(code: u64, n: nat)
    ensures
        unpack(code, n).len() == n,
    decreases n,
{
    if n > 0 {
        lemma_unpack_len(code / 8, (n - 1) as nat);
    }
}

/// Whether a word has no bit set above its lowest `n` groups.
pub open spec fn fits(w: u64, n: nat) -> bool {
    n <= MAX_BASES && w >> ((3 * n) as u64) == 0
}

/// Appending a group to a word that has room keeps the word and the group
/// apart.
pub proof fn lemma_push_group(w: u64, g: u64)
    by (bit_vector)
    requires
        w >> 61 == 0,
        g <= 7,
    ensures
        ((w << 3) | g) % 8 == g,
        ((w << 3) | g) / 8 == w,
{
}

/// A word that fits in `k` groups, `k` at most 20, has room for one more, and
/// with it fits in `k + 1`.
pub proof fn lemma_fits_grow(w: u64, g: u64, k: u64)
    by (bit_vector)
    requires
        k <= 20,
        w >> (3 * k) == 0,
        g <= 7,
    ensures
        w >> 61 == 0,
        ((w << 3) | g) >> (3 * (k + 1)) == 0,
{
}

/// The code word of at most 21 bases has no bit set above their groups.
pub proof fn lemma_pack_fits(s: Seq<Base>)
    requires
        s.len() <= MAX_BASES,
    ensures
        fits(pack(s), s.len()),
    decreases s.len(),
{
    if s.len() == 0 {
        assert(0u64 >> 0u64 == 0) by (bit_vector);
    } else {
        let t = s.drop_last();
        lemma_pack_fits(t);
        lemma_fits_grow(pack(t), s.last().spec_bits(), t.len() as u64);
    }
}

/// The bits above the groups of at most 21 bases are all set in their mask.
pub proof fn lemma_known_mask_fits(s: Seq<Base>)
    requires
        s.len() <= MAX_BASES,
    ensures
        fits(!known_mask(s), s.len()),
    decreases s.len(),
{
    if s.len() == 0 {
        assert(!u64::MAX >> 0u64 == 0) by (bit_vector);
    } else {
        let t = s.drop_last();
        let m = known_mask(t);
        let g = s.last().spec_known_bits();
        lemma_known_mask_fits(t);
        assert((!g) & 7 <= 7 && !((m << 3) | g) == (((!m) << 3) | ((!g) & 7))) by (bit_vector)
            requires
                g <= 7,
        ;
        lemma_fits_grow(!m, (!g) & 7, t.len() as u64);
    }
}

/// Unpacking the code word of at most 21 bases gives the bases back.
pub proof fn lemma_unpack_pack(s: Seq<Base>)
    requires
        s.len() <= MAX_BASES,
    ensures
        unpack(pack(s), s.len()) == s,
    decreases s.len(),
{
    if s.len() == 0 {
        assert(unpack(pack(s), s.len()) =~= s);
    } else {
        let t = s.drop_last();
        lemma_unpack_pack(t);
        lemma_pack_fits(t);
        lemma_fits_grow(pack(t), s.last().spec_bits(), t.len() as u64);
        lemma_push_group(pack(t), s.last().spec_bits());
        assert(Base::spec_from_bits(s.last().spec_bits()) == s.last());
        assert(t.push(s.last()) =~= s);
    }
}

/// The group of a word at place `j`, counted from the lowest group.
pub open spec fn group(w: u64, j: nat) -> u64 {
    (w >> ((3 * j) as u64)) & 7
}

/// Appending a group puts it at place 0 and moves every other group up by
/// one place.
pub proof fn lemma_group_of_push(w: u64, g: u64, j: u64)
    by (bit_vector)
    requires
        g <= 7,
        j < 20,
    ensures
        (((w << 3) | g) >> 0) & 7 == g,
        (((w << 3) | g) >> (3 * (j + 1))) & 7 == (w >> (3 * j)) & 7,
{
}

/// Layout: in the code word and in the mask of at most 21 bases, the group
/// at place `j` is that of the base `j` places before the last. So the first
/// base stands in the highest group in use, and each group of the mask is all
/// ones or all zeros.
pub proof fn lemma_groups(s: Seq<Base>, j: nat)
    requires
        s.len() <= MAX_BASES,
        j < s.len(),
    ensures
        group(pack(s), j) == s[s.len() - 1 - j].spec_bits(),
        group(known_mask(s), j) == s[s.len() - 1 - j].spec_known_bits(),
        group(known_mask(s), j) == 0 || group(known_mask(s), j) == 7,
    decreases s.len(),
{
    let t = s.drop_last();
    let below = if j > 0 {
        (j - 1) as nat
    } else {
        0
    };
    lemma_group_of_push(pack(t), s.last().spec_bits(), below as u64);
    lemma_group_of_push(known_mask(t), s.last().spec_known_bits(), below as u64);
    if j > 0 {
        lemma_groups(t, below);
    }
}

/// `k` times the base `A`.
pub open spec fn leading(k: nat) -> Seq<Base> {
    Seq::new(k, |i: int| Base::A)
}

/// A sequence of at most 21 bases, filled up at its front with `A` to 21.
pub open spec fn aligned(s: Seq<Base>) -> Seq<Base>
    recommends
        s.len() <= MAX_BASES,
{
    leading((MAX_BASES - s.len()) as nat) + s
}

/// Bases `A` in front of a sequence change neither its code word nor its mask.
pub proof fn lemma_leading(k: nat, s: Seq<Base>)
    ensures
        pack(leading(k) + s) == pack(s),
        known_mask(leading(k) + s) == known_mask(s),
    decreases s.len(), k,
{
    let t = leading(k) + s;
    if s.len() > 0 {
        assert(t.drop_last() =~= leading(k) + s.drop_last());
        lemma_leading(k, s.drop_last());
    } else if k > 0 {
        assert(t.drop_last() =~= leading((k - 1) as nat) + s);
        lemma_leading((k - 1) as nat, s);
        assert((0u64 << 3) | 0 == 0 && (0xffff_ffff_ffff_ffffu64 << 3) | 7 == 0xffff_ffff_ffff_ffffu64)
            by (bit_vector);
    } else {
        assert(t =~= s);
    }
}

} // verus!
