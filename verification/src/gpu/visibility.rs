//! Which points a search may see.

use vstd::prelude::*;

use crate::arith::{ceil_div, div_ceil_usize, lemma_ceil_div};
use crate::bits::{
    bit32, lemma_high_mask32, lemma_or32, packed_bit32, set_packed_bit32, zero_words32,
};

verus! {

/// Number of bits of a word.
pub const WORD_BITS: usize = 32;

/// A state of the deletions of a segment.
#[derive(Clone, Copy, Debug)]
pub struct GpuVisibilitySnapshot<'a> {
    /// Names the state. Two snapshots of one generation and size are equal.
    pub generation: u64,
    pub deleted: &'a [bool],
    /// Full vector ordinal space covered by this read view. The deletion flags may be fewer,
    /// because they only grow to the highest deleted ordinal. Points without a flag are live.
    pub point_count: usize,
}

impl<'a> GpuVisibilitySnapshot<'a> {
    /// The snapshot names a state of at least one point.
    pub open spec fn spec_is_valid(&self) -> bool {
        &&& self.generation != 0
        &&& self.point_count != 0
        &&& self.deleted@.len() <= self.point_count
    }

    /// The snapshot names a state of at least one point.
    pub fn is_valid(&self) -> (r: bool)
        ensures
            r == self.spec_is_valid(),
    {
        self.generation != 0 && self.point_count != 0 && self.deleted.len() <= self.point_count
    }
}

/// The words hide the deleted points and everything behind the last point.
pub open spec fn hides_deleted(words: Seq<u32>, deleted: Seq<bool>, point_count: int) -> bool {
    &&& words.len() == ceil_div(point_count, WORD_BITS as int)
    &&& forall|i: int|
        0 <= i < WORD_BITS * words.len() ==> #[trigger] packed_bit32(words, i) == (if i
            < point_count {
            i < deleted.len() && deleted[i]
        } else {
            true
        })
}

/// Pack deletion flags into words, lowest bit first.
pub fn pack_deleted_words(deleted: &[bool], point_count: usize) -> (words: Vec<u32>)
    requires
        deleted@.len() <= point_count,
    ensures
        hides_deleted(words@, deleted@, point_count as int),
{
    proof {
        lemma_ceil_div(point_count as int, WORD_BITS as int);
    }
    let count: usize = div_ceil_usize(point_count, WORD_BITS);
    let mut words: Vec<u32> = zero_words32(count);
    let mut i: usize = 0;
    while i < deleted.len()
        invariant
            i <= deleted@.len() <= point_count,
            words@.len() == count,
            point_count <= WORD_BITS * count,
            forall|j: int| #[trigger]
                packed_bit32(words@, j) == (0 <= j < i && deleted@[j]),
        decreases deleted@.len() - i,
    {
        if deleted[i] {
            set_packed_bit32(&mut words, i);
        }
        i = i + 1;
    }
    let valid_bits: usize = point_count % WORD_BITS;
    if count > 0 && valid_bits != 0 {
        let ghost before = words@;
        let slot: usize = count - 1;
        proof {
            lemma_high_mask32(valid_bits as u32);
        }
        let mask: u32 = !((1u32 << (valid_bits as u32)) - 1);
        let last: u32 = words[slot];
        proof {
            lemma_or32(last, mask);
        }
        words.set(slot, last | mask);
        proof {
            assert forall|j: int| 0 <= j < WORD_BITS * words@.len() implies
                #[trigger] packed_bit32(words@, j) == (if j < point_count {
                j < deleted@.len() && deleted@[j]
            } else {
                true
            }) by {
                assert(packed_bit32(before, j) == (0 <= j < i && deleted@[j]));
                if j / 32 == slot {
                    assert(bit32(last | mask, j % 32) == (bit32(last, j % 32) || bit32(
                        mask,
                        j % 32,
                    )));
                }
            }
        }
    }
    words
}

} // verus!
