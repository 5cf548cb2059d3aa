//! Short DNA sequences packed three bits per base into a single `u64`, with
//! Hamming distances computed directly on the packed words.
//!
//! A sequence of up to [`MAX_BASES`] bases is stored as a packed code, a mask
//! of the positions that hold a determined base, and its length. The codes of
//! the four determined bases differ pairwise in exactly [`ENCODING_DIST`] bits,
//! so the number of set bits of the xor of two codes is twice the number of
//! positions at which the sequences differ.

pub mod codec;
pub mod distance;
pub mod hamming;
pub mod laws;
pub mod packing;
pub mod popcount;
pub mod symbol;

pub use codec::BaseBits;
pub use distance::{hamming_dist_nany, hamming_dist_none};
pub use symbol::Base;

use vstd::prelude::*;

verus! {

/// Number of bits in which the codes of two distinct determined bases differ.
pub const ENCODING_DIST: u32 = 2;

/// Number of bits that hold one base.
pub const ENCODING_LENGTH: u32 = 3;

/// Number of bits of the word that holds a packed sequence.
pub const CONTAINER_WIDTH: u32 = 64;

/// Largest number of bases that one packed word can hold.
pub const MAX_BASES: usize = 21;

/// The code of an undetermined base.
pub const UNDETERMINED: u64 = 0b100;

/// The word with every bit set.
pub const MAX_VAL: u64 = u64::MAX;

/// The capacity is the container width divided by the group width, and the
/// groups of a full sequence fit in the container.
pub proof fn lemma_capacity()
    ensures
        MAX_BASES == CONTAINER_WIDTH / ENCODING_LENGTH,
        MAX_BASES * ENCODING_LENGTH <= CONTAINER_WIDTH,
{
}

} // verus!
