//! The alphabet: the four determined bases and the undetermined marker, with
//! their three-bit codes and their letters.

use crate::UNDETERMINED;
use vstd::prelude::*;

verus! {

/// The ASCII letter `A`.
pub const LETTER_A: u8 = 65;

/// The ASCII letter `C`.
pub const LETTER_C: u8 = 67;

/// The ASCII letter `G`.
pub const LETTER_G: u8 = 71;

/// The ASCII letter `T`.
pub const LETTER_T: u8 = 84;

/// The ASCII letter `N`, which marks an undetermined position.
pub const LETTER_N: u8 = 78;

/// One position of a sequence: a determined base, or `N` for a position whose
/// base is not known.
#[derive(Clone, Copy, Debug, PartialEq, Eq, Structural)]
pub enum Base {
    A,
    C,
    G,
    T,
    N,
}

impl Base {
    /// The base that an input byte stands for. Every byte other than the four
    /// upper-case letters of the determined bases is read as `N`.
    pub open spec fn spec_from_byte(b: u8) -> Base {
        if b == LETTER_A {
            Base::A
        } else if b == LETTER_C {
            Base::C
        } else if b == LETTER_T {
            Base::T
        } else if b == LETTER_G {
            Base::G
        } else {
            Base::N
        }
    }

    /// The letter that a base is written as.
    pub open spec fn spec_to_byte(self) -> u8 {
        match self {
            Base::A => LETTER_A,
            Base::C => LETTER_C,
            Base::T => LETTER_T,
            Base::G => LETTER_G,
            Base::N => LETTER_N,
        }
    }

    /// The three-bit code of a base.
    pub open spec fn spec_bits(self) -> u64 {
        match self {
            Base::A => 0b000,
            Base::C => 0b110,
            Base::T => 0b101,
            Base::G => 0b011,
            Base::N => UNDETERMINED,
        }
    }

    /// The base that a three-bit group stands for. Every group that is not the
    /// code of a determined base is read as `N`.
    pub open spec fn spec_from_bits(g: u64) -> Base {
        if g == 0b000 {
            Base::A
        } else if g == 0b110 {
            Base::C
        } else if g == 0b101 {
            Base::T
        } else if g == 0b011 {
            Base::G
        } else {
            Base::N
        }
    }

    /// Whether the base is one of `A`, `C`, `G`, `T`.
    pub open spec fn spec_is_determined(self) -> bool {
        self != Base::N
    }

    /// The group of the known-base mask for this base: all ones for a
    /// determined base, all zeros for `N`.
    pub open spec fn spec_known_bits(self) -> u64 {
        if self.spec_is_determined() {
            0b111
        } else {
            0b000
        }
    }

    #[verifier::when_used_as_spec(spec_from_byte)]
    pub fn from_byte(b: u8) -> (r: Base)
        ensures
            r == Base::spec_from_byte(b),
    {
        if b == LETTER_A {
            Base::A
        } else if b == LETTER_C {
            Base::C
        } else if b == LETTER_T {
            Base::T
        } else if b == LETTER_G {
            Base::G
        } else {
            Base::N
        }
    }

    #[verifier::when_used_as_spec(spec_to_byte)]
    pub fn to_byte(self) -> (r: u8)
        ensures
            r == self.spec_to_byte(),
    {
        match self {
            Base::A => LETTER_A,
            Base::C => LETTER_C,
            Base::T => LETTER_T,
            Base::G => LETTER_G,
            Base::N => LETTER_N,
        }
    }

    #[verifier::when_used_as_spec(spec_bits)]
    pub fn bits(self) -> (r: u64)
        ensures
            r == self.spec_bits(),
    {
        match self {
            Base::A => 0b000,
            Base::C => 0b110,
            Base::T => 0b101,
            Base::G => 0b011,
            Base::N => UNDETERMINED,
        }
    }

    #[verifier::when_used_as_spec(spec_from_bits)]
    pub fn from_bits(g: u64) -> (r: Base)
        ensures
            r == Base::spec_from_bits(g),
    {
        if g == 0b000 {
            Base::A
        } else if g == 0b110 {
            Base::C
        } else if g == 0b101 {
            Base::T
        } else if g == 0b011 {
            Base::G
        } else {
            Base::N
        }
    }

    #[verifier::when_used_as_spec(spec_is_determined)]
    pub fn is_determined(self) -> (r: bool)
        ensures
            r == self.spec_is_determined(),
    {
        self != Base::N
    }

    #[verifier::when_used_as_spec(spec_known_bits)]
    pub fn known_bits(self) -> (r: u64)
        ensures
            r == self.spec_known_bits(),
    {
        if self.is_determined() {
            0b111
        } else {
            0b000
        }
    }
}

} // verus!
