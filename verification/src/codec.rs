//! The packed value: encoding a text into it, and decoding it back.

use crate::packing::{
    bases_of, known_mask, lemma_unpack_len, lemma_unpack_pack, pack, text_of, unpack,
};
use crate::symbol::{Base, LETTER_A, LETTER_C, LETTER_G, LETTER_T};
use crate::{ENCODING_LENGTH, MAX_BASES};
use vstd::arithmetic::power2::{lemma2_to64, lemma2_to64_rest, lemma_pow2_strictly_increases, pow2};
use vstd::bits::{lemma_u64_low_bits_mask_is_mod, lemma_u64_shl_is_mul, low_bits_mask};
use vstd::prelude::*;
use vstd::string::StringExecFns;

verus! {

/// A sequence of at most [`MAX_BASES`] bases, packed into one word.
#[derive(Hash, PartialEq, Eq, Structural, Debug, Copy, Clone)]
pub struct BaseBits {
    /// The packed three-bit codes of the bases, the last base lowest.
    pub code: u64,
    /// The known-base mask: which groups hold a determined base.
    nbits: u64,
    /// The number of bases.
    len: usize,
}

/// Why a text cannot be encoded: it holds more than [`MAX_BASES`] symbols.
pub const LENGTH_EXCEEDED: &'static str = "Length of string to encode exceeds MAX_BASES";

/// The lowest `k` bits of `n`.
pub fn extract_bits(n: u64, k: u32) -> (r: u64)
    requires
        k < 64,
    ensures
        r == n as nat % pow2(k as nat),
{
    proof {
        lemma2_to64_rest();
        lemma_pow2_strictly_increases(k as nat, 64);
        lemma_u64_shl_is_mul(1, k as u64);
        lemma_u64_low_bits_mask_is_mod(n, k as nat);
        let mask = !(!0u64 << k);
        assert(mask == (1u64 << k) - 1) by (bit_vector)
            requires
                k < 64,
                mask == !(!0u64 << k),
        ;
        assert(1u64 << k == 1u64 << (k as u64)) by (bit_vector)
            requires
                k < 64,
        ;
        assert(mask == low_bits_mask(k as nat) as u64);
        assert(mask & n == n & mask) by (bit_vector);
    }
    !(!0u64 << k) & n
}

/// The same bytes in the opposite order.
fn reversed(v: Vec<u8>) -> (r: Vec<u8>)
    ensures
        r@ == v@.reverse(),
{
    let mut r: Vec<u8> = Vec::new();
    let mut i: usize = v.len();
    while i > 0
        invariant
            i <= v.len(),
            r.len() == v.len() - i,
            forall|j: int| 0 <= j < r.len() ==> r[j] == v[v.len() - 1 - j],
        decreases i,
    {
        i = i - 1;
        r.push(v[i]);
    }
    assert(r@ =~= v@.reverse());
    r
}

impl BaseBits {
    /// The number of bases of the sequence.
    pub closed spec fn spec_len(&self) -> nat {
        self.len as nat
    }

    /// The code word that the value carries.
    pub closed spec fn spec_code(&self) -> u64 {
        self.code
    }

    /// The known-base mask that the value carries.
    pub closed spec fn spec_mask(&self) -> u64 {
        self.nbits
    }

    /// The sequence that the value stands for: what its lowest groups hold,
    /// read in the order in which the bases were given.
    pub open spec fn view(&self) -> Seq<Base> {
        unpack(self.spec_code(), self.spec_len())
    }

    /// Whether the value is one that encoding produces: it holds at most
    /// [`MAX_BASES`] bases, and its code and mask are those of its sequence.
    pub open spec fn wf(&self) -> bool {
        &&& self.spec_len() <= MAX_BASES
        &&& self.spec_code() == pack(self@)
        &&& self.spec_mask() == known_mask(self@)
    }

    /// Injectivity: two well-formed values with the same text are the same
    /// value, in code, mask and length.
    pub proof fn lemma_text_injective(self, other: BaseBits)
        requires
            self.wf(),
            other.wf(),
            text_of(self@) == text_of(other@),
        ensures
            self@ == other@,
            self == other,
    {
        lemma_unpack_len(self.code, self.len as nat);
        lemma_unpack_len(other.code, other.len as nat);
        assert(self@.len() == text_of(self@).len());
        assert(other@.len() == text_of(other@).len());
        assert forall|i: int| 0 <= i < self@.len() implies self@[i] == other@[i] by {
            assert(text_of(self@)[i] == self@[i].spec_to_byte());
            assert(text_of(other@)[i] == other@[i].spec_to_byte());
        }
        assert(self@ =~= other@);
    }

    /// Encodes a text. Every byte other than `A`, `C`, `G`, `T` is taken as an
    /// undetermined base. A text of more than [`MAX_BASES`] bytes is refused.
    pub fn new(seq: &[u8]) -> (r: Result<BaseBits, &'static str>)
        ensures
            r is Err <==> seq@.len() > MAX_BASES,
            r matches Ok(v) ==> v.wf() && v@ == bases_of(seq@) && v.spec_len() == seq@.len(),
            r matches Err(e) ==> e == LENGTH_EXCEEDED,
    {
        let mut code: u64 = 0;
        let mut nbits: u64 = !0b0;
        let len = seq.len();
        if len > MAX_BASES {
            return Err(LENGTH_EXCEEDED);
        }
        assert(nbits == u64::MAX) by (bit_vector)
            requires
                nbits == !0u64,
        ;
        for i in 0..len
            invariant
                len == seq@.len(),
                len <= MAX_BASES,
                code == pack(bases_of(seq@.take(i as int))),
                nbits == known_mask(bases_of(seq@.take(i as int))),
        {
            let base = Base::from_byte(seq[i]);
            proof {
                let before = bases_of(seq@.take(i as int));
                let after = bases_of(seq@.take(i + 1));
                assert(after.drop_last() =~= before);
                assert(after.last() == base);
            }
            code = (code << ENCODING_LENGTH) | base.bits();
            nbits = (nbits << ENCODING_LENGTH) | base.known_bits();
        }
        let v = BaseBits { code, nbits, len };
        proof {
            assert(seq@.take(len as int) =~= seq@);
            lemma_unpack_pack(bases_of(seq@));
        }
        Ok(v)
    }

    /// Decodes the value into its text: one letter per base, `N` for an
    /// undetermined one, in the order in which the bases were given.
    pub fn decode(&self) -> (text: Vec<u8>)
        ensures
            text@ == text_of(self@),
    {
        let mut s: Vec<u8> = Vec::new();
        let mut code = self.code;
        for i in 0..self.len
            invariant
                text_of(self@) == text_of(unpack(code, (self.len - i) as nat)) + s@.reverse(),
        {
            let base = extract_bits(code, ENCODING_LENGTH);
            proof {
                lemma2_to64();
                assert(code >> 3 == code / 8) by (bit_vector);
                let rest = text_of(unpack(code / 8, (self.len - i - 1) as nat));
                let letter = Base::spec_from_bits(base).spec_to_byte();
                assert(text_of(unpack(code, (self.len - i) as nat)) =~= rest.push(letter));
                assert(rest.push(letter) + s@.reverse() =~= rest + s@.push(letter).reverse());
            }
            code = code >> ENCODING_LENGTH;
            s.push(Base::from_bits(base).to_byte());
        }
        assert(text_of(self@) =~= s@.reverse());
        reversed(s)
    }

    /// The text of the value as a string: the letters that `decode` gives.
    pub fn to_string(&self) -> (r: String)
        ensures
            r@ == text_of(self@).map_values(|b: u8| b as char),
    {
        let text = self.decode();
        let mut r = String::new();
        for i in 0..text.len()
            invariant
                text@ == text_of(self@),
                r@ == text@.take(i as int).map_values(|b: u8| b as char),
        {
            proof {
                reveal_strlit("A");
                reveal_strlit("C");
                reveal_strlit("G");
                reveal_strlit("T");
                reveal_strlit("N");
                assert(text@[i as int] == self@[i as int].spec_to_byte());
            }
            let b = text[i];
            let letter = if b == LETTER_A {
                "A"
            } else if b == LETTER_C {
                "C"
            } else if b == LETTER_G {
                "G"
            } else if b == LETTER_T {
                "T"
            } else {
                "N"
            };
            assert(letter@ =~= seq![b as char]);
            r.append(letter);
            assert(text@.take(i + 1).map_values(|b: u8| b as char) =~= text@.take(i as int).map_values(
                |b: u8| b as char,
            ) + seq![b as char]);
        }
        assert(text@.take(text.len() as int) =~= text@);
        r
    }

    /// The code word.
    pub fn code(&self) -> (r: u64)
        ensures
            r == self.spec_code(),
    {
        self.code
    }

    /// The known-base mask.
    pub fn mask(&self) -> (r: u64)
        ensures
            r == self.spec_mask(),
    {
        self.nbits
    }

    /// The number of bases.
    pub fn len(&self) -> (r: usize)
        ensures
            r == self.spec_len(),
    {
        self.len
    }
}

} // verus!
