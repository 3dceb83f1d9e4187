//! A growable vector of bits packed into 64-bit words.
//!
//! Bit `b` of word `w` holds the bit at position `w * 64 + b`, least
//! significant bit first. The last word may be only partly used; its unused
//! high bits are kept at zero.

use vstd::prelude::*;
use vstd::std_specs::iter::IteratorSpec;

verus! {

/// Number of bits held by one storage word.
pub const BITS: usize = 64;

/// Whether bit `b` of `word` is set, counting from the least significant bit.
pub open spec fn word_bit(word: u64, b: u64) -> bool {
    word & (1u64 << b) != 0
}

/// The bit at position `pos` of a sequence of words, read as one long row of
/// bits: word `pos / 64`, bit `pos % 64`.
pub open spec fn raw_bit(words: Seq<u64>, pos: int) -> bool {
    word_bit(words[pos / 64], (pos % 64) as u64)
}

/// The number of words needed to hold `bits` bits: `bits / 64`, rounded up.
pub open spec fn spec_blocks_for_bits(bits: nat) -> nat {
    if bits % 64 == 0 {
        bits / 64
    } else {
        bits / 64 + 1
    }
}

/// The `k` lowest bits set, the others clear.
pub open spec fn low_mask(k: u64) -> u64 {
    if k >= 64 {
        !0u64
    } else {
        ((1u64 << k) - 1) as u64
    }
}

/// Computes how many words are needed to store that many bits.
pub fn blocks_for_bits(bits: usize) -> (blocks: usize)
    ensures
        blocks == spec_blocks_for_bits(bits as nat),
{
    if bits % BITS == 0 {
        bits / BITS
    } else {
        bits / BITS + 1
    }
}

proof fn lemma_bit_set(w: u64, b: u64, c: u64)
    requires
        b < 64,
        c < 64,
    ensures
        word_bit(w | (1u64 << b), c) == (c == b || word_bit(w, c)),
{
    assert((w | (1u64 << b)) & (1u64 << c) != 0 <==> (c == b || w & (1u64 << c) != 0))
        by (bit_vector)
        requires
            b < 64,
            c < 64,
    ;
}

proof fn lemma_bit_unset(w: u64, b: u64, c: u64)
    requires
        b < 64,
        c < 64,
    ensures
        word_bit(w & !(1u64 << b), c) == (c != b && word_bit(w, c)),
{
    assert((w & !(1u64 << b)) & (1u64 << c) != 0 <==> (c != b && w & (1u64 << c) != 0))
        by (bit_vector)
        requires
            b < 64,
            c < 64,
    ;
}

proof fn lemma_bit_const(c: u64)
    requires
        c < 64,
    ensures
        !word_bit(0u64, c),
        word_bit(!0u64, c),
{
    assert(0u64 & (1u64 << c) == 0) by (bit_vector);
    assert(!0u64 & (1u64 << c) != 0) by (bit_vector)
        requires
            c < 64,
    ;
}

proof fn lemma_bit_not(w: u64, c: u64)
    requires
        c < 64,
    ensures
        word_bit(!w, c) == !word_bit(w, c),
{
    assert((!w) & (1u64 << c) != 0 <==> !(w & (1u64 << c) != 0)) by (bit_vector)
        requires
            c < 64,
    ;
}

proof fn lemma_bit_masked(w: u64, k: u64, c: u64)
    requires
        k <= 64,
        c < 64,
    ensures
        word_bit(w & low_mask(k), c) == (c < k && word_bit(w, c)),
{
    let m = low_mask(k);
    assert((w & m) & (1u64 << c) != 0 <==> (c < k && w & (1u64 << c) != 0)) by (bit_vector)
        requires
            c < 64,
            k <= 64,
            m == if k >= 64 {
                !0u64
            } else {
                ((1u64 << k) - 1) as u64
            },
    ;
}

/// Two words that agree on their `k` lowest bits are equal below bit `k`.
proof fn lemma_low_bits_agree(w1: u64, w2: u64, k: u64)
    requires
        k <= 64,
        forall|c: u64| c < k ==> word_bit(w1, c) == word_bit(w2, c),
    ensures
        w1 & low_mask(k) == w2 & low_mask(k),
    decreases k,
{
    if k == 0 {
        assert(w1 & low_mask(0) == w2 & low_mask(0)) by (bit_vector);
    } else {
        let j = (k - 1) as u64;
        lemma_low_bits_agree(w1, w2, j);
        assert(word_bit(w1, j) == word_bit(w2, j));
        let mj = low_mask(j);
        let mk = low_mask(k);
        assert(w1 & mk == w2 & mk) by (bit_vector)
            requires
                j < 64,
                k == j + 1,
                mj == ((1u64 << j) - 1) as u64,
                mk == if k >= 64 {
                    !0u64
                } else {
                    ((1u64 << k) - 1) as u64
                },
                w1 & mj == w2 & mj,
                (w1 & (1u64 << j) != 0) == (w2 & (1u64 << j) != 0),
        ;
    }
}

/// A word is determined by its 64 bits.
pub proof fn lemma_word_ext(w1: u64, w2: u64)
    requires
        forall|c: u64| c < 64 ==> word_bit(w1, c) == word_bit(w2, c),
    ensures
        w1 == w2,
{
    lemma_low_bits_agree(w1, w2, 64);
    assert(w1 & !0u64 == w1) by (bit_vector);
    assert(w2 & !0u64 == w2) by (bit_vector);
}

/// `Vec::capacity` of the standard library: the number of elements the
/// vector can hold without reallocating. All that is claimed is that it is
/// never below the vector's length; how much more was allocated is left open.
#[verifier::external_body]
fn word_capacity(storage: &Vec<u64>) -> (capacity: usize)
    ensures
        capacity >= storage@.len(),
{
    storage.capacity()
}

/// `Iterator::size_hint` of the standard library, of which this takes the
/// lower bound. It is the iterator's own estimate and nothing is claimed of
/// it.
#[verifier::external_body]
fn size_hint_lower<I: Iterator>(iterator: &I) -> usize {
    iterator.size_hint().0
}

/// The number of bits that `words` storage words hold, or `usize::MAX` where
/// that number is beyond `usize`.
pub open spec fn spec_capacity_in_bits(words: usize) -> usize {
    if words * 64 <= usize::MAX {
        (words * 64) as usize
    } else {
        usize::MAX
    }
}

/// Converts a capacity counted in words into one counted in bits,
/// saturating at `usize::MAX`.
pub fn capacity_in_bits(words: usize) -> (bits: usize)
    ensures
        bits == spec_capacity_in_bits(words),
{
    match words.checked_mul(BITS) {
        Some(bits) => bits,
        None => usize::MAX,
    }
}

/// The number of words to ask the storage for before `additional` more bits
/// are pushed onto a vector of `nbits` bits whose storage has room for
/// `capacity` bits: the words that the longer vector needs beyond those of
/// the present one. `None` where the room suffices.
pub open spec fn spec_words_to_reserve(nbits: usize, additional: usize, capacity: usize) -> Option<
    usize,
> {
    if nbits + additional > capacity {
        Some(
            (spec_blocks_for_bits((nbits + additional) as nat) - spec_blocks_for_bits(
                nbits as nat,
            )) as usize,
        )
    } else {
        None
    }
}

/// Decides how many words to reserve for `additional` more bits, given the
/// capacity in bits that the storage reports. The sum of `nbits` and
/// `additional` must fit in `usize`.
pub fn words_to_reserve(nbits: usize, additional: usize, capacity: usize) -> (words: Option<usize>)
    requires
        nbits + additional <= usize::MAX,
    ensures
        words == spec_words_to_reserve(nbits, additional, capacity),
{
    let desired_cap = nbits + additional;
    if desired_cap > capacity {
        Some(blocks_for_bits(desired_cap) - blocks_for_bits(nbits))
    } else {
        None
    }
}

/// Whether every bit of `words` from position `nbits` on is zero.
pub open spec fn tail_clean(words: Seq<u64>, nbits: int) -> bool {
    forall|pos: int| nbits <= pos < words.len() * 64 ==> !#[trigger] raw_bit(words, pos)
}

/// The bit vector type.
pub struct BitVec {
    storage: Vec<u64>,
    nbits: usize,
}

impl View for BitVec {
    type V = Seq<bool>;

    /// The bits of the vector, in order.
    open spec fn view(&self) -> Seq<bool> {
        Seq::new(self.spec_len() as nat, |i: int| raw_bit(self.words(), i))
    }
}

impl BitVec {
    /// The storage words, in order.
    pub closed spec fn words(&self) -> Seq<u64> {
        self.storage@
    }

    /// The number of bits in the vector.
    pub closed spec fn spec_len(&self) -> usize {
        self.nbits
    }

    /// The storage holds exactly as many words as the bits need, and the
    /// bits of the last word past the end of the vector are zero.
    pub open spec fn wf(&self) -> bool {
        &&& self.words().len() == spec_blocks_for_bits(self.spec_len() as nat)
        &&& tail_clean(self.words(), self.spec_len() as int)
    }

    /// Creates an empty vector, without allocating.
    pub fn new() -> (bit_vec: BitVec)
        ensures
            bit_vec.wf(),
            bit_vec@ == Seq::<bool>::empty(),
            bit_vec.words() == Seq::<u64>::empty(),
    {
        BitVec { storage: Vec::new(), nbits: 0 }
    }

    /// Creates a `BitVec` that holds `nbits` elements, setting each element
    /// to `bit`.
    pub fn from_elem(nbits: usize, bit: bool) -> (bit_vec: BitVec)
        ensures
            bit_vec.wf(),
            bit_vec@ == Seq::new(nbits as nat, |i: int| bit),
            bit_vec.words().len() == spec_blocks_for_bits(nbits as nat),
            forall|pos: int|
                nbits <= pos < bit_vec.words().len() * 64 ==> !#[trigger] raw_bit(
                    bit_vec.words(),
                    pos,
                ),
    {
        let nblocks = blocks_for_bits(nbits);
        let fill: u64 = if bit {
            !0u64
        } else {
            0u64
        };
        let mut bit_vec = BitVec { storage: vec![fill; nblocks], nbits: nbits };
        proof {
            assert forall|pos: int| 0 <= pos < nbits implies #[trigger] raw_bit(
                bit_vec.words(),
                pos,
            ) == bit by {
                lemma_bit_const((pos % 64) as u64);
            }
        }
        bit_vec.fix_last_block();
        bit_vec
    }

    /// Constructs a new, empty `BitVec` whose storage was asked for room for
    /// `blocks_for_bits(nbits)` words.
    ///
    /// This sets the capacity of the vector, not its length: the vector is
    /// empty whatever `nbits` is, and how much room the storage has is up to
    /// its allocator.
    pub fn with_capacity(nbits: usize) -> (bit_vec: BitVec)
        ensures
            bit_vec.wf(),
            bit_vec@ == Seq::<bool>::empty(),
            bit_vec.words() == Seq::<u64>::empty(),
    {
        BitVec { storage: Vec::with_capacity(blocks_for_bits(nbits)), nbits: 0 }
    }

    /// Returns the total number of bits in this vector.
    #[verifier::when_used_as_spec(spec_len)]
    pub fn len(&self) -> (nbits: usize)
        ensures
            nbits == self.spec_len(),
            nbits == self@.len(),
    {
        self.nbits
    }

    /// Returns true if there are no bits in this vector.
    pub fn is_empty(&self) -> (empty: bool)
        ensures
            empty == (self@.len() == 0),
    {
        self.len() == 0
    }

    /// Zeroes the unused bits of the last word, which a word-wise operation
    /// may have set.
    fn fix_last_block(&mut self)
        requires
            old(self).words().len() == spec_blocks_for_bits(old(self).spec_len() as nat),
        ensures
            final(self).wf(),
            final(self).spec_len() == old(self).spec_len(),
            final(self)@ == old(self)@,
    {
        let extra_bits = (self.len() % BITS) as u64;
        if extra_bits > 0 {
            assert(1u64 << extra_bits >= 1) by (bit_vector)
                requires
                    extra_bits < 64,
            ;
            let mask = (1u64 << extra_bits) - 1;
            let storage_len = self.storage.len();
            let last = self.storage[storage_len - 1];
            self.storage.set(storage_len - 1, last & mask);
            proof {
                let before = old(self).words();
                let after = self.words();
                assert(mask == low_mask(extra_bits)) by (bit_vector)
                    requires
                        0 < extra_bits < 64,
                        mask == (1u64 << extra_bits) - 1,
                ;
                assert forall|pos: int| 0 <= pos < after.len() * 64 implies #[trigger] raw_bit(
                    after,
                    pos,
                ) == (pos < self.nbits && raw_bit(before, pos)) by {
                    if pos / 64 == storage_len - 1 {
                        lemma_bit_masked(last, extra_bits, (pos % 64) as u64);
                    }
                }
            }
        }
    }

    /// The bit at index `i`, or `None` where `i` is past the end.
    pub open spec fn spec_get(&self, i: usize) -> Option<bool> {
        if i < self@.len() {
            Some(self@[i as int])
        } else {
            None
        }
    }

    /// Retrieves the value at index `i`, or `None` if the index is out of
    /// bounds.
    pub fn get(&self, i: usize) -> (bit: Option<bool>)
        requires
            self.wf(),
        ensures
            bit == self.spec_get(i),
    {
        if i >= self.nbits {
            return None;
        }
        let w = i / BITS;
        let b = (i % BITS) as u64;
        let block = self.storage[w];
        Some((block & (1u64 << b)) != 0)
    }

    /// Sets the value of the bit at index `i`, which must be in bounds.
    pub fn set(&mut self, i: usize, x: bool)
        requires
            old(self).wf(),
            i < old(self)@.len(),
        ensures
            is_set(*old(self), i, x, *final(self)),
    {
        let w = i / BITS;
        let b = (i % BITS) as u64;
        let flag = 1u64 << b;
        let val = if x {
            self.storage[w] | flag
        } else {
            self.storage[w] & !flag
        };
        self.storage.set(w, val);
        proof {
            let before = old(self).words();
            let after = self.words();
            assert forall|pos: int| 0 <= pos < after.len() * 64 implies #[trigger] raw_bit(
                after,
                pos,
            ) == (if pos == i {
                x
            } else {
                raw_bit(before, pos)
            }) by {
                if pos / 64 == w {
                    let c = (pos % 64) as u64;
                    lemma_bit_set(before[w as int], b, c);
                    lemma_bit_unset(before[w as int], b, c);
                }
            }
        }
    }

    /// Sets all bits to 1.
    pub fn set_all(&mut self)
        requires
            old(self).wf(),
        ensures
            final(self).wf(),
            final(self)@ == Seq::new(old(self)@.len(), |i: int| true),
    {
        let n = self.storage.len();
        let mut k: usize = 0;
        while k < n
            invariant
                k <= n,
                n == self.storage@.len(),
                self.nbits == old(self).nbits,
                forall|j: int| 0 <= j < k ==> self.storage@[j] == !0u64,
            decreases n - k,
        {
            self.storage.set(k, !0u64);
            k += 1;
        }
        proof {
            assert forall|pos: int| 0 <= pos < self.nbits implies #[trigger] raw_bit(
                self.words(),
                pos,
            ) by {
                lemma_bit_const((pos % 64) as u64);
            }
        }
        self.fix_last_block();
    }

    /// Flips all bits.
    pub fn negate(&mut self)
        requires
            old(self).wf(),
        ensures
            final(self).wf(),
            final(self)@ == Seq::new(old(self)@.len(), |i: int| !old(self)@[i]),
    {
        let n = self.storage.len();
        let mut k: usize = 0;
        while k < n
            invariant
                k <= n,
                n == self.storage@.len(),
                n == old(self).storage@.len(),
                self.nbits == old(self).nbits,
                forall|j: int| 0 <= j < k ==> self.storage@[j] == !old(self).storage@[j],
                forall|j: int| k <= j < n ==> self.storage@[j] == old(self).storage@[j],
            decreases n - k,
        {
            let w = self.storage[k];
            self.storage.set(k, !w);
            k += 1;
        }
        proof {
            assert forall|pos: int| 0 <= pos < self.nbits implies #[trigger] raw_bit(
                self.words(),
                pos,
            ) == !raw_bit(old(self).words(), pos) by {
                lemma_bit_not(old(self).words()[pos / 64], (pos % 64) as u64);
            }
        }
        self.fix_last_block();
    }

    /// Pushes a `bool` onto the end. The length must stay within `usize`.
    pub fn push(&mut self, elem: bool)
        requires
            old(self).wf(),
            old(self)@.len() < usize::MAX,
        ensures
            is_pushed(*old(self), elem, *final(self)),
    {
        if self.nbits % BITS == 0 {
            self.storage.push(0);
        }
        let insert_pos = self.nbits;
        self.nbits = self.nbits + 1;
        proof {
            let before = old(self).words();
            let grown = self.words();
            assert forall|pos: int| 0 <= pos < grown.len() * 64 implies #[trigger] raw_bit(
                grown,
                pos,
            ) == (pos < before.len() * 64 && raw_bit(before, pos)) by {
                if pos >= before.len() * 64 {
                    lemma_bit_const((pos % 64) as u64);
                }
            }
        }
        self.set(insert_pos, elem);
    }

    /// Clears all bits in this vector. Its length stays.
    pub fn clear(&mut self)
        requires
            old(self).wf(),
        ensures
            final(self).wf(),
            final(self)@ == Seq::new(old(self)@.len(), |i: int| false),
    {
        let n = self.storage.len();
        let mut k: usize = 0;
        while k < n
            invariant
                k <= n,
                n == self.storage@.len(),
                n == old(self).storage@.len(),
                self.nbits == old(self).nbits,
                forall|j: int| 0 <= j < k ==> self.storage@[j] == 0u64,
            decreases n - k,
        {
            self.storage.set(k, 0u64);
            k += 1;
        }
        proof {
            assert forall|pos: int| 0 <= pos < self.words().len() * 64 implies !#[trigger] raw_bit(
                self.words(),
                pos,
            ) by {
                lemma_bit_const((pos % 64) as u64);
            }
        }
    }

    /// Returns an iterator over the bits of the vector, in order.
    pub fn iter(&self) -> (iter: Iter<'_>)
        requires
            self.wf(),
        ensures
            iter.wf(),
            iter@ == self@,
    {
        Iter { bit_vec: self, next_idx: 0, end_idx: self.nbits }
    }

    /// Appends the bits that `iterator` yields, in order.
    pub fn extend<I: Iterator<Item = bool>>(&mut self, iterator: I)
        requires
            old(self).wf(),
            iterator.obeys_prophetic_iter_laws(),
            iterator.decrease() is Some,
            old(self)@.len() + iterator.remaining().len() <= usize::MAX,
        ensures
            final(self).wf(),
            final(self)@ == old(self)@ + iterator.remaining(),
    {
        let mut iterator = iterator;
        let ghost all = iterator.remaining();
        let min = size_hint_lower(&iterator);
        if min <= usize::MAX - self.len() {
            self.reserve(min);
        }
        loop
            invariant
                self.wf(),
                iterator.obeys_prophetic_iter_laws(),
                iterator.decrease() is Some,
                self@.len() + iterator.remaining().len() <= usize::MAX,
                self@ + iterator.remaining() == old(self)@ + all,
            ensures
                self.wf(),
                self@ == old(self)@ + all,
            decreases iterator.decrease()->0,
        {
            match iterator.next() {
                Some(element) => {
                    self.push(element);
                },
                None => {
                    break ;
                },
            }
        }
    }

    /// Collects the bits that `iterator` yields into a new vector.
    pub fn from_iter<I: Iterator<Item = bool>>(iterator: I) -> (bit_vec: BitVec)
        requires
            iterator.obeys_prophetic_iter_laws(),
            iterator.decrease() is Some,
            iterator.remaining().len() <= usize::MAX,
        ensures
            bit_vec.wf(),
            bit_vec@ == iterator.remaining(),
    {
        let mut ret = BitVec::new();
        ret.extend(iterator);
        ret
    }

    /// Writes the bits out as a string of the digits `0` and `1`, first bit
    /// first.
    pub fn to_string(&self) -> (text: String)
        requires
            self.wf(),
        ensures
            text@ == Seq::new(
                self@.len(),
                |i: int|
                    if self@[i] {
                        '1'
                    } else {
                        '0'
                    },
            ),
    {
        let mut text = String::new();
        let mut i: usize = 0;
        proof {
            reveal_strlit("1");
            reveal_strlit("0");
        }
        while i < self.nbits
            invariant
                self.wf(),
                i <= self.nbits,
                "1"@ == seq!['1'],
                "0"@ == seq!['0'],
                text@ == Seq::new(
                    i as nat,
                    |j: int|
                        if self@[j] {
                            '1'
                        } else {
                            '0'
                        },
                ),
            decreases self.nbits - i,
        {
            if self[i] {
                text.append("1");
            } else {
                text.append("0");
            }
            i += 1;
        }
        text
    }

    /// Reserves capacity for at least `additional` more bits to be pushed:
    /// where the capacity that the storage reports falls short, asks it for
    /// the words that `words_to_reserve` gives. The bits, the words and the
    /// length stay as they are; how much room the storage then has is up to
    /// its allocator. The sum of the length and `additional` must fit in
    /// `usize`.
    pub fn reserve(&mut self, additional: usize)
        requires
            old(self).wf(),
            old(self)@.len() + additional <= usize::MAX,
        ensures
            final(self).wf(),
            final(self)@ == old(self)@,
            final(self).words() == old(self).words(),
    {
        match words_to_reserve(self.len(), additional, self.capacity()) {
            Some(words) => self.storage.reserve(words),
            None => {},
        }
    }

    /// Returns the capacity in bits of this vector: pushing up to this many
    /// bits in total will not reallocate. It is the capacity of the word
    /// storage, counted in bits and saturated at `usize::MAX`.
    pub fn capacity(&self) -> (bits: usize)
        requires
            self.wf(),
        ensures
            bits >= self@.len(),
            exists|words: usize|
                words >= self.words().len() && bits == #[trigger] spec_capacity_in_bits(words),
    {
        capacity_in_bits(word_capacity(&self.storage))
    }
}

impl core::ops::Index<usize> for BitVec {
    type Output = bool;

    /// The bit at index `i`, which must be in bounds.
    fn index(&self, i: usize) -> (bit: &bool)
        ensures
            *bit == self@[i as int],
    {
        if self.get(i).expect("index out of bounds") {
            &true
        } else {
            &false
        }
    }
}

impl vstd::std_specs::core::IndexSpecImpl<usize> for BitVec {
    open spec fn index_req(&self, index: &usize) -> bool {
        self.wf() && *index < self@.len()
    }
}

impl Default for BitVec {
    /// The empty vector.
    fn default() -> (bit_vec: BitVec)
        ensures
            bit_vec.wf(),
            bit_vec@ == Seq::<bool>::empty(),
            bit_vec.words() == Seq::<u64>::empty(),
    {
        BitVec::new()
    }
}

impl Clone for BitVec {
    /// A vector with the same bits in the same words.
    fn clone(&self) -> (copy: BitVec)
        ensures
            copy@ == self@,
            copy.words() == self.words(),
            copy.spec_len() == self.spec_len(),
            self.wf() ==> copy.wf(),
    {
        BitVec { storage: self.storage.clone(), nbits: self.nbits }
    }
}

/// An iterator over the bits of a `BitVec`, from either end.
pub struct Iter<'a> {
    bit_vec: &'a BitVec,
    next_idx: usize,
    end_idx: usize,
}

impl<'a> Clone for Iter<'a> {
    /// An iterator over the same vector with the same bits still to come.
    fn clone(&self) -> (copy: Iter<'a>)
        ensures
            copy@ == self@,
            copy.wf() == self.wf(),
    {
        Iter { bit_vec: self.bit_vec, next_idx: self.next_idx, end_idx: self.end_idx }
    }
}

impl<'a> View for Iter<'a> {
    type V = Seq<bool>;

    /// The bits that the iterator has yet to yield, in order.
    closed spec fn view(&self) -> Seq<bool> {
        self.bit_vec@.subrange(self.next_idx as int, self.end_idx as int)
    }
}

impl<'a> Iter<'a> {
    /// The iterator's range lies within its well-formed vector.
    pub closed spec fn wf(&self) -> bool {
        &&& self.bit_vec.wf()
        &&& self.next_idx <= self.end_idx <= self.bit_vec.spec_len()
    }

    /// Yields the first of the remaining bits, or `None` if none is left.
    pub fn next(&mut self) -> (bit: Option<bool>)
        requires
            old(self).wf(),
        ensures
            final(self).wf(),
            old(self)@.len() == 0 ==> bit == None::<bool> && final(self)@ == old(self)@,
            old(self)@.len() > 0 ==> bit == Some(old(self)@.first()) && final(self)@ == old(
                self,
            )@.drop_first(),
    {
        if self.next_idx != self.end_idx {
            let idx = self.next_idx;
            self.next_idx += 1;
            Some(self.bit_vec[idx])
        } else {
            None
        }
    }

    /// The number of bits left, as a lower and an upper bound.
    pub fn size_hint(&self) -> (bounds: (usize, Option<usize>))
        requires
            self.wf(),
        ensures
            bounds == (self@.len() as usize, Some(self@.len() as usize)),
    {
        let rem = self.end_idx - self.next_idx;
        (rem, Some(rem))
    }

    /// Yields the last of the remaining bits, or `None` if none is left.
    pub fn next_back(&mut self) -> (bit: Option<bool>)
        requires
            old(self).wf(),
        ensures
            final(self).wf(),
            old(self)@.len() == 0 ==> bit == None::<bool> && final(self)@ == old(self)@,
            old(self)@.len() > 0 ==> bit == Some(old(self)@.last()) && final(self)@ == old(
                self,
            )@.drop_last(),
    {
        if self.next_idx != self.end_idx {
            self.end_idx -= 1;
            Some(self.bit_vec[self.end_idx])
        } else {
            None
        }
    }
}

/// What `set` does: `after` is `before` with bit `i` replaced by `x`.
pub open spec fn is_set(before: BitVec, i: usize, x: bool, after: BitVec) -> bool {
    &&& after.wf()
    &&& after@ =~= before@.update(i as int, x)
}

/// What `push` does: `after` is `before` with `elem` appended.
pub open spec fn is_pushed(before: BitVec, elem: bool, after: BitVec) -> bool {
    &&& after.wf()
    &&& after@ =~= before@.push(elem)
}

/// Round trip: a bit that has just been set reads back as it was written.
pub proof fn law_round_trip(before: BitVec, i: usize, v: bool, after: BitVec)
    requires
        before.wf(),
        i < before@.len(),
        is_set(before, i, v, after),
    ensures
        after.spec_get(i) == Some(v),
{
}

/// Setting one bit leaves every other bit, and the length, as they were.
pub proof fn law_set_elsewhere(before: BitVec, i: usize, v: bool, after: BitVec, j: usize)
    requires
        before.wf(),
        i < before@.len(),
        is_set(before, i, v, after),
        j != i,
    ensures
        after.spec_get(j) == before.spec_get(j),
        after@.len() == before@.len(),
{
}

/// Tail cleanliness: in a well-formed vector the storage has exactly the
/// words that the bits need, and every storage bit past the end of the
/// vector is zero.
pub proof fn law_tail_clean(bit_vec: BitVec, pos: int)
    requires
        bit_vec.wf(),
        bit_vec@.len() <= pos < spec_blocks_for_bits(bit_vec@.len()) * 64,
    ensures
        bit_vec.words().len() * 64 == spec_blocks_for_bits(bit_vec@.len()) * 64,
        !raw_bit(bit_vec.words(), pos),
{
}

proof fn lemma_pushes(steps: Seq<BitVec>, bits: Seq<bool>, k: int)
    requires
        steps.len() == bits.len() + 1,
        steps[0].wf(),
        steps[0]@ == Seq::<bool>::empty(),
        forall|t: int|
            0 <= t < bits.len() ==> #[trigger] is_pushed(steps[t], bits[t], steps[t + 1]),
        0 <= k <= bits.len(),
    ensures
        steps[k].wf(),
        steps[k]@ == bits.take(k),
    decreases k,
{
    if k > 0 {
        let t = k - 1;
        lemma_pushes(steps, bits, t);
        assert(is_pushed(steps[t], bits[t], steps[t + 1]));
    }
}

/// Growth: pushing `n` bits, whatever their values, onto an empty vector
/// gives a vector of those `n` bits in `ceil(n / 64)` words. `steps` holds
/// the vector before the first push and after each push.
pub proof fn law_growth(steps: Seq<BitVec>, bits: Seq<bool>)
    requires
        steps.len() == bits.len() + 1,
        steps[0].wf(),
        steps[0]@ == Seq::<bool>::empty(),
        forall|t: int|
            0 <= t < bits.len() ==> #[trigger] is_pushed(steps[t], bits[t], steps[t + 1]),
    ensures
        steps.last()@ == bits,
        steps.last()@.len() == bits.len(),
        steps.last().words().len() == spec_blocks_for_bits(bits.len()),
{
    lemma_pushes(steps, bits, bits.len() as int);
}

/// The storage of a well-formed vector is determined by its bits: two
/// well-formed vectors with the same bits hold the same words.
pub proof fn law_words_of_view(a: BitVec, b: BitVec)
    requires
        a.wf(),
        b.wf(),
        a@ == b@,
    ensures
        a.words() == b.words(),
        a.spec_len() == b.spec_len(),
{
    let n = a@.len();
    assert forall|w: int| 0 <= w < a.words().len() implies a.words()[w] == b.words()[w] by {
        assert forall|c: u64| c < 64 implies word_bit(a.words()[w], c) == word_bit(
            b.words()[w],
            c,
        ) by {
            let pos = w * 64 + c;
            if pos < n {
                assert(a@[pos] == raw_bit(a.words(), pos));
                assert(b@[pos] == raw_bit(b.words(), pos));
            } else {
                assert(!raw_bit(a.words(), pos));
                assert(!raw_bit(b.words(), pos));
            }
        }
        lemma_word_ext(a.words()[w], b.words()[w]);
    }
}

} // verus!
