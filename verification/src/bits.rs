//! Bit-level views of machine words.
use vstd::prelude::*;
use vstd::std_specs::bits::{axiom_u64_trailing_zeros, u64_trailing_zeros};

verus! {

/// Bit `i` of a 64-bit word.
pub open spec fn bit64(word: u64, i: int) -> bool {
    0 <= i < 64 && (word >> (i as u64)) & 1 == 1
}

/// Bit `i` of a 32-bit word.
pub open spec fn bit32(word: u32, i: int) -> bool {
    0 <= i < 32 && (word >> (i as u32)) & 1 == 1
}

/// Number of set bits among the lowest `n` bits.
pub open spec fn ones_below(word: u64, n: nat) -> nat
    decreases n,
{
    if n == 0 {
        0
    } else {
        ones_below(word, (n - 1) as nat) + if bit64(word, n - 1) {
            1nat
        } else {
            0nat
        }
    }
}

/// Number of set bits.
pub open spec fn ones(word: u64) -> nat {
    ones_below(word, 64)
}

/// Bits of a disjunction.
pub proof fn lemma_or64(a: u64, b: u64)
    ensures
        forall|i: int| #[trigger] bit64(a | b, i) == (bit64(a, i) || bit64(b, i)),
{
    assert forall|i: int| #[trigger] bit64(a | b, i) == (bit64(a, i) || bit64(b, i)) by {
        if 0 <= i < 64 {
            let k = i as u64;
            assert(((a | b) >> k) & 1 == 1 <==> ((a >> k) & 1 == 1 || (b >> k) & 1 == 1))
                by (bit_vector);
        }
    }
}

/// Bits of a conjunction.
pub proof fn lemma_and64(a: u64, b: u64)
    ensures
        forall|i: int| #[trigger] bit64(a & b, i) == (bit64(a, i) && bit64(b, i)),
{
    assert forall|i: int| #[trigger] bit64(a & b, i) == (bit64(a, i) && bit64(b, i)) by {
        if 0 <= i < 64 {
            let k = i as u64;
            assert(((a & b) >> k) & 1 == 1 <==> ((a >> k) & 1 == 1 && (b >> k) & 1 == 1))
                by (bit_vector);
        }
    }
}

/// Bits of a complement.
pub proof fn lemma_not64(a: u64)
    ensures
        forall|i: int| #[trigger] bit64(!a, i) == (0 <= i < 64 && !bit64(a, i)),
{
    assert forall|i: int| #[trigger] bit64(!a, i) == (0 <= i < 64 && !bit64(a, i)) by {
        if 0 <= i < 64 {
            let k = i as u64;
            assert(((!a) >> k) & 1 == 1 <==> !((a >> k) & 1 == 1)) by (bit_vector)
                requires
                    k < 64,
            ;
        }
    }
}

/// Bits of a word with one set bit.
pub proof fn lemma_single64(k: u64)
    requires
        k < 64,
    ensures
        forall|i: int| #[trigger] bit64(1u64 << k, i) == (i == k),
{
    assert forall|i: int| #[trigger] bit64(1u64 << k, i) == (i == k) by {
        if 0 <= i < 64 {
            let j = i as u64;
            assert(((1u64 << k) >> j) & 1 == 1 <==> j == k) by (bit_vector)
                requires
                    k < 64,
                    j < 64,
            ;
        }
    }
}

/// The zero word has no set bit.
pub proof fn lemma_zero64()
    ensures
        forall|i: int| !(#[trigger] bit64(0, i)),
{
    assert forall|i: int| !(#[trigger] bit64(0, i)) by {
        if 0 <= i < 64 {
            let j = i as u64;
            assert((0u64 >> j) & 1 != 1) by (bit_vector);
        }
    }
}

/// The all-ones word has every bit set.
pub proof fn lemma_full64()
    ensures
        forall|i: int| 0 <= i < 64 ==> #[trigger] bit64(u64::MAX, i),
{
    assert forall|i: int| 0 <= i < 64 implies #[trigger] bit64(u64::MAX, i) by {
        let j = i as u64;
        assert((0xffff_ffff_ffff_ffffu64 >> j) & 1 == 1) by (bit_vector)
            requires
                j < 64,
        ;
    }
}

/// Bits of the mask of the lowest `n` bits.
pub proof fn lemma_low_mask64(n: u64)
    requires
        n < 64,
    ensures
        (1u64 << n) >= 1,
        forall|i: int| #[trigger] bit64(((1u64 << n) - 1) as u64, i) == (0 <= i < n),
{
    assert((1u64 << n) >= 1) by (bit_vector)
        requires
            n < 64,
    ;
    let m = ((1u64 << n) - 1) as u64;
    assert forall|i: int| #[trigger] bit64(m, i) == (0 <= i < n) by {
        if 0 <= i < 64 {
            let j = i as u64;
            assert((((1u64 << n) - 1) as u64 >> j) & 1 == 1 <==> j < n) by (bit_vector)
                requires
                    n < 64,
                    j < 64,
            ;
        }
    }
}

/// A nonzero word has a set bit.
pub proof fn lemma_nonzero64(a: u64) -> (i: int)
    requires
        a != 0,
    ensures
        0 <= i < 64,
        bit64(a, i),
{
    vstd::std_specs::bits::axiom_u64_trailing_zeros(a);
    vstd::std_specs::bits::u64_trailing_zeros(a) as int
}

/// A word is zero exactly when it has no set bit.
pub proof fn lemma_zero_iff64(a: u64)
    ensures
        a == 0 <==> (forall|i: int| 0 <= i < 64 ==> !bit64(a, i)),
{
    lemma_zero64();
    if a != 0 {
        let i = lemma_nonzero64(a);
        assert(bit64(a, i));
    }
}

/// Words with the same bits are equal.
pub proof fn lemma_equal64(a: u64, b: u64)
    requires
        forall|i: int| 0 <= i < 64 ==> bit64(a, i) == bit64(b, i),
    ensures
        a == b,
{
    lemma_not64(a);
    lemma_not64(b);
    lemma_and64(a, !b);
    lemma_and64(b, !a);
    lemma_zero_iff64(a & !b);
    lemma_zero_iff64(b & !a);
    assert forall|i: int| 0 <= i < 64 implies !bit64(a & !b, i) && !bit64(b & !a, i) by {
        assert(bit64(a, i) == bit64(b, i));
    }
    assert(a == b) by (bit_vector)
        requires
            a & !b == 0,
            b & !a == 0,
    ;
}

/// Bounds on the number of set bits.
pub proof fn lemma_ones_below_bound(word: u64, n: nat)
    ensures
        ones_below(word, n) <= n,
    decreases n,
{
    if n > 0 {
        lemma_ones_below_bound(word, (n - 1) as nat);
    }
}

/// The number of set bits grows with the prefix.
pub proof fn lemma_ones_below_mono(word: u64, m: nat, n: nat)
    requires
        m <= n,
    ensures
        ones_below(word, m) <= ones_below(word, n),
    decreases n,
{
    if m < n {
        lemma_ones_below_mono(word, m, (n - 1) as nat);
    }
}

/// A word has a set bit exactly when it is nonzero.
pub proof fn lemma_ones_positive(word: u64)
    ensures
        ones(word) <= 64,
        ones(word) > 0 <==> word != 0,
{
    lemma_ones_below_bound(word, 64);
    if word != 0 {
        let i = lemma_nonzero64(word);
        assert(ones_below(word, (i + 1) as nat) >= 1);
        lemma_ones_below_mono(word, (i + 1) as nat, 64);
    } else {
        lemma_zero64();
        lemma_ones_below_zero(64);
    }
}

/// The zero word has no ones in any prefix.
pub proof fn lemma_ones_below_zero(n: nat)
    ensures
        ones_below(0, n) == 0,
    decreases n,
{
    lemma_zero64();
    if n > 0 {
        lemma_ones_below_zero((n - 1) as nat);
    }
}

/// Test one bit of a 64-bit word.
pub fn test_bit64(word: u64, i: usize) -> (r: bool)
    requires
        i < 64,
    ensures
        r == bit64(word, i as int),
{
    (word >> (i as u64)) & 1 == 1
}

/// Count the set bits of a 64-bit word.
pub fn count_ones64(word: u64) -> (r: usize)
    ensures
        r == ones(word),
        r <= 64,
{
    let mut count: usize = 0;
    let mut i: usize = 0;
    while i < 64
        invariant
            i <= 64,
            count == ones_below(word, i as nat),
            count <= i,
        decreases 64 - i,
    {
        if test_bit64(word, i) {
            count = count + 1;
        }
        i = i + 1;
    }
    count
}

/// Bits of a 32-bit disjunction.
pub proof fn lemma_or32(a: u32, b: u32)
    ensures
        forall|i: int| #[trigger] bit32(a | b, i) == (bit32(a, i) || bit32(b, i)),
{
    assert forall|i: int| #[trigger] bit32(a | b, i) == (bit32(a, i) || bit32(b, i)) by {
        if 0 <= i < 32 {
            let k = i as u32;
            assert(((a | b) >> k) & 1 == 1 <==> ((a >> k) & 1 == 1 || (b >> k) & 1 == 1))
                by (bit_vector);
        }
    }
}

/// Bits of a 32-bit word with one set bit.
pub proof fn lemma_single32(k: u32)
    requires
        k < 32,
    ensures
        forall|i: int| #[trigger] bit32(1u32 << k, i) == (i == k),
{
    assert forall|i: int| #[trigger] bit32(1u32 << k, i) == (i == k) by {
        if 0 <= i < 32 {
            let j = i as u32;
            assert(((1u32 << k) >> j) & 1 == 1 <==> j == k) by (bit_vector)
                requires
                    k < 32,
                    j < 32,
            ;
        }
    }
}

/// The zero 32-bit word has no set bit.
pub proof fn lemma_zero32()
    ensures
        forall|i: int| !(#[trigger] bit32(0, i)),
{
    assert forall|i: int| !(#[trigger] bit32(0, i)) by {
        if 0 <= i < 32 {
            let j = i as u32;
            assert((0u32 >> j) & 1 != 1) by (bit_vector);
        }
    }
}

/// Bits above the lowest `n` bits.
pub proof fn lemma_high_mask32(n: u32)
    requires
        n < 32,
    ensures
        (1u32 << n) >= 1,
        forall|i: int| #[trigger] bit32(!(((1u32 << n) - 1) as u32), i) == (n <= i < 32),
{
    assert((1u32 << n) >= 1) by (bit_vector)
        requires
            n < 32,
    ;
    let m = !(((1u32 << n) - 1) as u32);
    assert forall|i: int| #[trigger] bit32(m, i) == (n <= i < 32) by {
        if 0 <= i < 32 {
            let j = i as u32;
            assert(((!(((1u32 << n) - 1) as u32)) >> j) & 1 == 1 <==> n <= j) by (bit_vector)
                requires
                    n < 32,
                    j < 32,
            ;
        }
    }
}

/// Test one bit of a 32-bit word.
pub fn test_bit32(word: u32, i: usize) -> (r: bool)
    requires
        i < 32,
    ensures
        r == bit32(word, i as int),
{
    (word >> (i as u32)) & 1 == 1
}

/// Set one bit of a 32-bit word.
pub fn set_bit32(word: u32, i: usize) -> (r: u32)
    requires
        i < 32,
    ensures
        forall|j: int| #[trigger] bit32(r, j) == (bit32(word, j) || j == i),
{
    proof {
        lemma_or32(word, 1u32 << (i as u32));
        lemma_single32(i as u32);
    }
    word | (1u32 << (i as u32))
}

/// Set one bit of a 64-bit word.
pub fn set_bit64(word: u64, i: usize) -> (r: u64)
    requires
        i < 64,
    ensures
        forall|j: int| #[trigger] bit64(r, j) == (bit64(word, j) || j == i),
{
    proof {
        lemma_or64(word, 1u64 << (i as u64));
        lemma_single64(i as u64);
    }
    word | (1u64 << (i as u64))
}

/// Bit `i` of a bit set packed into 32-bit words, lowest bit first.
pub open spec fn packed_bit32(words: Seq<u32>, i: int) -> bool {
    0 <= i < 32 * words.len() && bit32(words[i / 32], i % 32)
}

/// Bit `i` of a bit set packed into 64-bit words, lowest bit first.
pub open spec fn packed_bit64(words: Seq<u64>, i: int) -> bool {
    0 <= i < 64 * words.len() && bit64(words[i / 64], i % 64)
}

/// Set bit `i` of a packed bit set.
pub fn set_packed_bit32(words: &mut Vec<u32>, i: usize)
    requires
        i < 32 * old(words)@.len(),
    ensures
        final(words)@.len() == old(words)@.len(),
        forall|j: int|
            #[trigger] packed_bit32(final(words)@, j) == (packed_bit32(old(words)@, j) || j == i),
{
    let slot: usize = i / 32;
    let updated: u32 = set_bit32(words[slot], i % 32);
    let ghost before = words@;
    words.set(slot, updated);
    proof {
        assert forall|j: int|
            #[trigger] packed_bit32(words@, j) == (packed_bit32(before, j) || j == i) by {
            if 0 <= j < 32 * words@.len() {
                if j / 32 == slot {
                    assert(bit32(updated, j % 32) == (bit32(before[slot as int], j % 32) || j % 32
                        == (i % 32)));
                }
            }
        }
    }
}

/// Set bit `i` of a packed bit set.
pub fn set_packed_bit64(words: &mut Vec<u64>, i: usize)
    requires
        i < 64 * old(words)@.len(),
    ensures
        final(words)@.len() == old(words)@.len(),
        forall|j: int|
            #[trigger] packed_bit64(final(words)@, j) == (packed_bit64(old(words)@, j) || j == i),
{
    let slot: usize = i / 64;
    let updated: u64 = set_bit64(words[slot], i % 64);
    let ghost before = words@;
    words.set(slot, updated);
    proof {
        assert forall|j: int|
            #[trigger] packed_bit64(words@, j) == (packed_bit64(before, j) || j == i) by {
            if 0 <= j < 64 * words@.len() {
                if j / 64 == slot {
                    assert(bit64(updated, j % 64) == (bit64(before[slot as int], j % 64) || j % 64
                        == (i % 64)));
                }
            }
        }
    }
}

/// A packed bit set of `len` zero words.
pub fn zero_words32(len: usize) -> (words: Vec<u32>)
    ensures
        words@ == Seq::new(len as nat, |i: int| 0u32),
        forall|j: int| !(#[trigger] packed_bit32(words@, j)),
{
    let mut words: Vec<u32> = Vec::with_capacity(len);
    while words.len() < len
        invariant
            words@.len() <= len,
            forall|i: int| 0 <= i < words@.len() ==> words@[i] == 0,
        decreases len - words@.len(),
    {
        words.push(0);
    }
    proof {
        lemma_zero32();
    }
    words
}

/// A packed bit set of `len` zero words.
pub fn zero_words64(len: usize) -> (words: Vec<u64>)
    ensures
        words@ == Seq::new(len as nat, |i: int| 0u64),
        forall|j: int| !(#[trigger] packed_bit64(words@, j)),
{
    let mut words: Vec<u64> = Vec::with_capacity(len);
    while words.len() < len
        invariant
            words@.len() <= len,
            forall|i: int| 0 <= i < words@.len() ==> words@[i] == 0,
        decreases len - words@.len(),
    {
        words.push(0);
    }
    proof {
        lemma_zero64();
    }
    words
}

/// Clearing the lowest set bit of a word.
pub proof fn lemma_clear_lowest64(a: u64)
    requires
        a != 0,
    ensures
        0 <= u64_trailing_zeros(a) < 64,
        bit64(a, u64_trailing_zeros(a) as int),
        forall|i: int| #[trigger]
            bit64(a & (a - 1) as u64, i) == (bit64(a, i) && i != u64_trailing_zeros(a)),
        (a & (a - 1) as u64) < a,
{
    axiom_u64_trailing_zeros(a);
    let k = u64_trailing_zeros(a) as u64;
    let b = (a - 1) as u64;
    assert(a & b < a) by (bit_vector)
        requires
            b == a - 1,
            a != 0,
    ;
    assert forall|i: int| #[trigger] bit64(a & b, i) == (bit64(a, i) && i != k) by {
        if 0 <= i < 64 {
            let j = i as u64;
            assert(((a & b) >> j) & 1 == 1 <==> ((a >> j) & 1 == 1 && j != k)) by (bit_vector)
                requires
                    b == a - 1,
                    a != 0,
                    k < 64,
                    j < 64,
                    (a >> k) & 1 == 1,
                    a << ((64 - k) as u64) == 0 || k == 0,
            ;
        }
    }
}

} // verus!
