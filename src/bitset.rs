use bitset_core::BitSet;
use vstd::prelude::*;

verus! {

/// Number of bits in every bitset of the store: the largest number of
/// identifiers that can be alive at once.
pub const BITSET_SIZE: usize = 1048576;

/// Number of bits in one block of a bitset.
pub const BLOCK_BITS: usize = 32;

/// Number of blocks in every bitset of the store.
pub const BITSET_SLICE_COUNT: usize = 32768;

/// Bit `j` (least significant first) of a block.
pub open spec fn word_bit(w: u32, j: int) -> bool {
    (w >> (j as u32)) & 1u32 == 1u32
}

/// The bits held by a sequence of blocks, block 0 first.
pub open spec fn bits_of(words: Seq<u32>) -> Seq<bool> {
    Seq::new((words.len() * 32) as nat, |i: int| word_bit(words[i / 32], i % 32))
}

/// Bitwise AND of two bit sequences of the same length.
pub open spec fn and_bits(a: Seq<bool>, b: Seq<bool>) -> Seq<bool> {
    Seq::new(a.len(), |i: int| a[i] && b[i])
}

/// Bitwise OR of two bit sequences of the same length.
pub open spec fn or_bits(a: Seq<bool>, b: Seq<bool>) -> Seq<bool> {
    Seq::new(a.len(), |i: int| a[i] || b[i])
}

/// Bits of `a` that are not in `b`.
pub open spec fn andnot_bits(a: Seq<bool>, b: Seq<bool>) -> Seq<bool> {
    Seq::new(a.len(), |i: int| a[i] && !b[i])
}

/// Complement of a bit sequence.
pub open spec fn not_bits(a: Seq<bool>) -> Seq<bool> {
    Seq::new(a.len(), |i: int| !a[i])
}

/// Number of set bits in a bit sequence.
pub open spec fn popcount(s: Seq<bool>) -> nat
    decreases s.len(),
{
    if s.len() == 0 {
        0
    } else {
        popcount(s.drop_last()) + if s.last() { 1nat } else { 0nat }
    }
}

/// The indices in `[from, bound)` whose bit is set in `driving`, ascending:
/// the indices that a bitset-driven iterator visits.
pub open spec fn visits(driving: Seq<bool>, from: int, bound: int) -> Seq<int>
    decreases bound - from,
{
    if bound <= from {
        Seq::empty()
    } else {
        let v = visits(driving, from, bound - 1);
        if driving[bound - 1] {
            v.push(bound - 1)
        } else {
            v
        }
    }
}

/// Splits off the first index of `visits`.
pub proof fn lemma_visits_front(driving: Seq<bool>, from: int, bound: int)
    requires
        0 <= from < bound <= driving.len(),
    ensures
        visits(driving, from, bound) == (if driving[from] { seq![from] } else { Seq::<int>::empty() })
            + visits(driving, from + 1, bound),
    decreases bound - from,
{
    let f = if driving[from] { seq![from] } else { Seq::<int>::empty() };
    if from + 1 < bound {
        lemma_visits_front(driving, from, bound - 1);
        let x = visits(driving, from + 1, bound - 1);
        assert(visits(driving, from, bound - 1) == f + x);
        if driving[bound - 1] {
            assert((f + x).push(bound - 1) =~= f + x.push(bound - 1));
        }
    } else {
        assert(visits(driving, from, from) == Seq::<int>::empty());
        assert(visits(driving, from + 1, bound) == Seq::<int>::empty());
        assert(visits(driving, from, bound) =~= f + visits(driving, from + 1, bound));
    }
}

/// An iterator driven by `driving` over `[0, bound)` visits every index
/// below `bound` whose bit is set, none at or above `bound`, and so exactly
/// as many indices as there are set bits below `bound`.
pub proof fn lemma_visits_count(driving: Seq<bool>, bound: int)
    requires
        0 <= bound <= driving.len(),
    ensures
        visits(driving, 0, bound).len() == popcount(driving.subrange(0, bound)),
        forall|k: int| 0 <= k < visits(driving, 0, bound).len() ==> {
            &&& 0 <= #[trigger] visits(driving, 0, bound)[k] < bound
            &&& driving[visits(driving, 0, bound)[k]]
        },
        forall|i: int| 0 <= i < bound && driving[i] ==> visits(driving, 0, bound).contains(i),
    decreases bound,
{
    if bound > 0 {
        lemma_visits_count(driving, bound - 1);
        assert(driving.subrange(0, bound).drop_last() =~= driving.subrange(0, bound - 1));
        let v = visits(driving, 0, bound - 1);
        if driving[bound - 1] {
            assert(v.push(bound - 1)[v.len() as int] == bound - 1);
        }
        assert forall|i: int| 0 <= i < bound && driving[i] implies visits(driving, 0, bound).contains(i) by {
            if i < bound - 1 {
                let k = choose|k: int| 0 <= k < v.len() && v[k] == i;
                assert(visits(driving, 0, bound)[k] == i);
            } else {
                assert(visits(driving, 0, bound)[v.len() as int] == i);
            }
        }
    }
}

/// Relies on bitset_core's `BitSet::bit_test` for `Vec<u32>`, which reads bit
/// `bit % 32` of block `bit / 32`.
#[verifier::external_body]
fn words_test(words: &Vec<u32>, bit: usize) -> (r: bool)
    requires
        bit < words@.len() * 32,
    ensures
        r == bits_of(words@)[bit as int],
{
    words.bit_test(bit)
}

/// Relies on bitset_core's `BitSet::bit_set` for `Vec<u32>`: sets that one bit.
#[verifier::external_body]
fn words_set(words: &mut Vec<u32>, bit: usize)
    requires
        bit < old(words)@.len() * 32,
    ensures
        final(words)@.len() == old(words)@.len(),
        bits_of(final(words)@) == bits_of(old(words)@).update(bit as int, true),
{
    words.bit_set(bit);
}

/// Relies on bitset_core's `BitSet::bit_reset` for `Vec<u32>`: clears that one bit.
#[verifier::external_body]
fn words_reset(words: &mut Vec<u32>, bit: usize)
    requires
        bit < old(words)@.len() * 32,
    ensures
        final(words)@.len() == old(words)@.len(),
        bits_of(final(words)@) == bits_of(old(words)@).update(bit as int, false),
{
    words.bit_reset(bit);
}

/// Relies on bitset_core's `BitSet::bit_and` for `Vec<u32>`: block-wise `&=`
/// (it asserts that both lengths agree).
#[verifier::external_body]
fn words_and(words: &mut Vec<u32>, rhs: &Vec<u32>)
    requires
        old(words)@.len() == rhs@.len(),
    ensures
        final(words)@.len() == old(words)@.len(),
        bits_of(final(words)@) == and_bits(bits_of(old(words)@), bits_of(rhs@)),
{
    words.bit_and(rhs);
}

/// Relies on bitset_core's `BitSet::bit_or` for `Vec<u32>`: block-wise `|=`
/// (it asserts that both lengths agree).
#[verifier::external_body]
fn words_or(words: &mut Vec<u32>, rhs: &Vec<u32>)
    requires
        old(words)@.len() == rhs@.len(),
    ensures
        final(words)@.len() == old(words)@.len(),
        bits_of(final(words)@) == or_bits(bits_of(old(words)@), bits_of(rhs@)),
{
    words.bit_or(rhs);
}

/// Relies on bitset_core's `BitSet::bit_andnot` for `Vec<u32>`: block-wise
/// `&= !rhs` (it asserts that both lengths agree).
#[verifier::external_body]
fn words_andnot(words: &mut Vec<u32>, rhs: &Vec<u32>)
    requires
        old(words)@.len() == rhs@.len(),
    ensures
        final(words)@.len() == old(words)@.len(),
        bits_of(final(words)@) == andnot_bits(bits_of(old(words)@), bits_of(rhs@)),
{
    words.bit_andnot(rhs);
}

/// Relies on bitset_core's `BitSet::bit_not` for `Vec<u32>`: complements every block.
#[verifier::external_body]
fn words_not(words: &mut Vec<u32>)
    ensures
        final(words)@.len() == old(words)@.len(),
        bits_of(final(words)@) == not_bits(bits_of(old(words)@)),
{
    words.bit_not();
}

/// Relies on bitset_core's `BitSet::bit_all` for `u32`, which compares the
/// block with `!0`: true exactly when its 32 bits are all set.
#[verifier::external_body]
fn word_all(w: u32) -> (r: bool)
    ensures
        r == (forall|j: int| 0 <= j < 32 ==> #[trigger] word_bit(w, j)),
{
    w.bit_all()
}

/// A fixed-size bitset made of 32-bit blocks.
#[derive(Debug)]
pub struct BitSetVec {
    words: Vec<u32>,
}

impl View for BitSetVec {
    type V = Seq<bool>;

    closed spec fn view(&self) -> Seq<bool> {
        bits_of(self.words@)
    }
}

/// An empty bitset of `BITSET_SIZE` bits.
pub fn create_bitset() -> (r: BitSetVec)
    ensures
        r@.len() == BITSET_SIZE,
        forall|i: int| 0 <= i < BITSET_SIZE ==> !#[trigger] r@[i],
{
    let words: Vec<u32> = vec![0u32; BITSET_SLICE_COUNT];
    let r = BitSetVec { words };
    assert forall|i: int| 0 <= i < BITSET_SIZE implies !#[trigger] r@[i] by {
        let w = r.words@[i / 32];
        let j = (i % 32) as u32;
        assert(w == 0u32);
        assert((0u32 >> j) & 1u32 == 0u32) by (bit_vector);
    }
    r
}

impl BitSetVec {
    /// Whether bit `i` is set.
    pub fn bit_test(&self, i: usize) -> (r: bool)
        requires
            i < self@.len(),
        ensures
            r == self@[i as int],
    {
        words_test(&self.words, i)
    }

    /// Sets bit `i`.
    pub fn bit_set(&mut self, i: usize)
        requires
            i < old(self)@.len(),
        ensures
            final(self)@ == old(self)@.update(i as int, true),
    {
        words_set(&mut self.words, i);
    }

    /// Clears bit `i`.
    pub fn bit_reset(&mut self, i: usize)
        requires
            i < old(self)@.len(),
        ensures
            final(self)@ == old(self)@.update(i as int, false),
    {
        words_reset(&mut self.words, i);
    }

    /// In-place intersection with `other`.
    pub fn bit_and(&mut self, other: &BitSetVec)
        requires
            old(self)@.len() == other@.len(),
        ensures
            final(self)@ == and_bits(old(self)@, other@),
    {
        words_and(&mut self.words, &other.words);
    }

    /// In-place union with `other`.
    pub fn bit_or(&mut self, other: &BitSetVec)
        requires
            old(self)@.len() == other@.len(),
        ensures
            final(self)@ == or_bits(old(self)@, other@),
    {
        words_or(&mut self.words, &other.words);
    }

    /// In-place set difference: clears every bit that is set in `other`.
    pub fn bit_andnot(&mut self, other: &BitSetVec)
        requires
            old(self)@.len() == other@.len(),
        ensures
            final(self)@ == andnot_bits(old(self)@, other@),
    {
        words_andnot(&mut self.words, &other.words);
    }

    /// In-place complement.
    pub fn bit_not(&mut self)
        ensures
            final(self)@ == not_bits(old(self)@),
    {
        words_not(&mut self.words);
    }

    /// Whether every bit of block `block` (bits `32 * block .. 32 * block + 32`) is set.
    pub fn all_set_in_block(&self, block: usize) -> (r: bool)
        requires
            (block + 1) * 32 <= self@.len(),
        ensures
            r == (forall|i: int| block * 32 <= i < block * 32 + 32 ==> #[trigger] self@[i]),
    {
        let w = self.words[block];
        let r = word_all(w);
        assert forall|i: int| block * 32 <= i < block * 32 + 32 implies #[trigger] self@[i]
            == word_bit(w, i - block * 32) by {
            assert(i / 32 == block as int);
            assert(i % 32 == i - block * 32);
        }
        proof {
            if !r {
                let j = choose|j: int| 0 <= j < 32 && !word_bit(w, j);
                assert(self@[block * 32 + j] == word_bit(w, j)) by {
                    assert((block * 32 + j) / 32 == block as int);
                    assert((block * 32 + j) % 32 == j);
                }
            }
        }
        r
    }

    /// A bitset holding the same bits as `self`.
    pub fn duplicate(&self) -> (r: BitSetVec)
        ensures
            r@ == self@,
    {
        let mut words: Vec<u32> = Vec::new();
        let mut k: usize = 0;
        while k < self.words.len()
            invariant
                k <= self.words@.len(),
                words@ == self.words@.subrange(0, k as int),
            decreases self.words@.len() - k,
        {
            words.push(self.words[k]);
            k = k + 1;
        }
        assert(words@ =~= self.words@);
        BitSetVec { words }
    }
}

} // verus!
