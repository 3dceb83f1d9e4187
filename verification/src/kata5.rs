//! A Bloom filter over the packed bit vector.
//!
//! A key is hashed once to a 64-bit digest. The digest's two halves give
//! every probe position, `(low + high * i) mod m` for probe `i`, so one
//! hash stands in for `k` of them.

use crate::bitvec::BitVec;
use core::hash::Hash;
use core::hash::Hasher;
use core::marker::PhantomData;
use vstd::prelude::*;

verus! {

/// The low 32 bits of a digest.
pub open spec fn digest_low(digest: u64) -> u64 {
    digest & 0xFFFF_FFFF
}

/// The high 32 bits of a digest, shifted down.
pub open spec fn digest_high(digest: u64) -> u64 {
    digest >> 32
}

/// The position of probe `i` for `digest` in a filter of `m` bits.
pub open spec fn spec_index(digest: u64, i: nat, m: nat) -> int {
    (digest_low(digest) + digest_high(digest) * i) % (m as int)
}

/// Whether one of the first `k` probes for `digest` falls on position `p`.
pub open spec fn probes(digest: u64, k: nat, m: nat, p: int) -> bool {
    exists|i: nat| i < k && #[trigger] spec_index(digest, i, m) == p
}

/// Whether every one of the `k` probes for `digest` finds its bit set.
pub open spec fn may_contain(bits: Seq<bool>, k: nat, digest: u64) -> bool {
    forall|i: nat| i < k ==> bits[#[trigger] spec_index(digest, i, bits.len())]
}

/// The bits after inserting `digest`: those that were set, and those that
/// the `k` probes fall on.
pub open spec fn inserted(bits: Seq<bool>, k: nat, digest: u64) -> Seq<bool> {
    Seq::new(bits.len(), |p: int| bits[p] || probes(digest, k, bits.len(), p))
}

/// `Hash::hash` of the standard library: feeds `key` into `state`. What it
/// feeds is up to the key's implementation, so nothing is claimed of the
/// state afterwards.
#[verifier::external_body]
fn feed<T: Hash, H: Hasher>(key: &T, state: &mut H) {
    key.hash(state)
}

/// `Hasher::finish` of the standard library: the digest of what was fed to
/// `state`. Which number that is depends on the hasher, so nothing is
/// claimed of it.
#[verifier::external_body]
fn finish<H: Hasher>(state: &H) -> u64 {
    state.finish()
}

/// A Bloom filter whose keys are hashed by `H`.
pub struct BloomFilter<H> {
    bitmap: BitVec,
    nhashes: usize,
    hasher: PhantomData<H>,
}

impl<H> View for BloomFilter<H> {
    type V = Seq<bool>;

    /// The filter's bits.
    closed spec fn view(&self) -> Seq<bool> {
        self.bitmap@
    }
}

impl<H: Hasher + Default> BloomFilter<H> {
    /// The number of probes per key.
    pub closed spec fn hashes(&self) -> nat {
        self.nhashes as nat
    }

    /// The words that hold the filter's bits.
    pub closed spec fn words(&self) -> Seq<u64> {
        self.bitmap.words()
    }

    /// The bit vector is well formed and holds at least one bit, and there
    /// is at least one probe per key.
    pub closed spec fn wf(&self) -> bool {
        &&& self.bitmap.wf()
        &&& self.bitmap@.len() >= 1
        &&& self.nhashes >= 1
    }

    /// A well-formed filter has at least one bit and at least one probe.
    pub proof fn lemma_sizes(self)
        requires
            self.wf(),
        ensures
            self@.len() >= 1,
            self.hashes() >= 1,
    {
    }

    /// Two well-formed filters with the same bits hold the same words.
    pub proof fn lemma_words(self, other: Self)
        requires
            self.wf(),
            other.wf(),
            self@ == other@,
        ensures
            self.words() == other.words(),
    {
        crate::bitvec::law_words_of_view(self.bitmap, other.bitmap);
    }

    /// Creates an empty filter of `nbits` bits that probes `nhashes` bits
    /// per key, or `None` if either number is zero.
    pub fn with_sizes(nbits: usize, nhashes: usize) -> (filter: Option<BloomFilter<H>>)
        ensures
            filter is Some <==> nbits >= 1 && nhashes >= 1,
            filter matches Some(f) ==> is_fresh(f, nbits, nhashes),
    {
        if nbits == 0 || nhashes == 0 {
            None
        } else {
            Some(
                BloomFilter::<H> {
                    bitmap: BitVec::from_elem(nbits, false),
                    nhashes: nhashes,
                    hasher: PhantomData,
                },
            )
        }
    }

    /// The filter's bit vector, for inspection.
    pub fn bitmap(&self) -> (bitmap: &BitVec)
        requires
            self.wf(),
        ensures
            bitmap.wf(),
            bitmap@ == self@,
            bitmap.words() == self.words(),
    {
        &self.bitmap
    }

    /// Computes the position of probe `i` for `digest`.
    fn compute_index(&self, i: usize, digest: u64) -> (index: usize)
        requires
            self.wf(),
        ensures
            index == spec_index(digest, i as nat, self@.len()),
            index < self@.len(),
    {
        let a = digest & 0xFFFF_FFFF;
        let b = digest >> 32;
        assert((b as int) * (i as int) <= 0xFFFF_FFFF_FFFF_FFFF * 0xFFFF_FFFF_FFFF_FFFF)
            by (nonlinear_arith)
            requires
                0 <= b <= 0xFFFF_FFFF_FFFF_FFFF,
                0 <= i <= 0xFFFF_FFFF_FFFF_FFFF,
        ;
        let x = a as u128 + (b as u128) * (i as u128);
        (x % (self.bitmap.len() as u128)) as usize
    }

    /// Hashes `key` once with a fresh `H`. Which digest comes back is up to
    /// `H` and to the key's `Hash` implementation.
    fn compute_digest<T: Hash>(&self, key: &T) -> u64 {
        let mut h: H = Default::default();
        feed(key, &mut h);
        finish(&h)
    }

    /// Zeroes every bit. The sizes stay, so the filter is as when it was
    /// created, and no digest is reported any more.
    pub fn clear(&mut self)
        requires
            old(self).wf(),
        ensures
            is_fresh(*final(self), old(self)@.len() as usize, old(self).hashes() as usize),
            final(self).hashes() == old(self).hashes(),
            final(self)@.len() == old(self)@.len(),
            forall|digest: u64| !may_contain(final(self)@, final(self).hashes(), digest),
    {
        self.bitmap.clear();
        proof {
            assert forall|digest: u64| !may_contain(self@, self.hashes(), digest) by {
                lemma_cleared_holds_nothing(self@, self.hashes(), digest);
            }
        }
    }

    /// Reports whether the key with this digest is possibly present: whether
    /// all the bits that its probes fall on are set.
    pub fn get_digest(&self, digest: u64) -> (found: bool)
        requires
            self.wf(),
        ensures
            found == may_contain(self@, self.hashes(), digest),
    {
        let n = self.nhashes;
        for i in 0..n
            invariant
                self.wf(),
                n == self.nhashes,
                forall|j: nat| j < i ==> self@[#[trigger] spec_index(digest, j, self@.len())],
        {
            let ix = self.compute_index(i, digest);
            if !self.bitmap.get(ix).unwrap() {
                return false;
            }
        }
        true
    }

    /// Inserts the key with this digest: sets the bits that its probes fall
    /// on.
    pub fn set_digest(&mut self, digest: u64)
        requires
            old(self).wf(),
        ensures
            is_inserted(*old(self), digest, *final(self)),
            may_contain(final(self)@, final(self).hashes(), digest),
            forall|other: u64|
                may_contain(old(self)@, old(self).hashes(), other) ==> may_contain(
                    final(self)@,
                    final(self).hashes(),
                    other,
                ),
    {
        let ghost m = self@.len();
        let n = self.nhashes;
        for i in 0..n
            invariant
                self.wf(),
                n == self.nhashes,
                self.nhashes == old(self).nhashes,
                m == old(self)@.len(),
                self@ == inserted(old(self)@, i as nat, digest),
        {
            let ghost prev = self@;
            let ix = self.compute_index(i, digest);
            self.bitmap.set(ix, true);
            proof {
                assert forall|p: int| 0 <= p < m implies #[trigger] self@[p] == (old(self)@[p]
                    || probes(digest, (i + 1) as nat, m, p)) by {
                    lemma_probes_step(digest, i as nat, m, p);
                    assert(self@[p] == (p == ix || prev[p]));
                }
            }
        }
        proof {
            lemma_inserted_is_found(old(self)@, old(self).hashes(), digest);
            assert forall|other: u64|
                may_contain(old(self)@, old(self).hashes(), other) implies may_contain(
                self@,
                self.hashes(),
                other,
            ) by {
                lemma_inserted_keeps(old(self)@, old(self).hashes(), digest, other);
            }
        }
    }

    /// Reports whether `key` is possibly present. A `false` is certain: the
    /// key's digest was not inserted since the filter was created or last
    /// cleared. The answer is that of `get_digest` for the digest that `H`
    /// gave the key.
    pub fn get<T: Hash>(&self, key: &T) -> (found: bool)
        requires
            self.wf(),
        ensures
            exists|digest: u64| found == #[trigger] may_contain(self@, self.hashes(), digest),
    {
        let digest = self.compute_digest(key);
        self.get_digest(digest)
    }

    /// Inserts `key`: hashes it once and sets the bits that the probes of
    /// its digest fall on. The effect is that of `set_digest` for the digest
    /// that `H` gave the key.
    pub fn set<T: Hash>(&mut self, key: &T)
        requires
            old(self).wf(),
        ensures
            exists|digest: u64| #[trigger] is_inserted(*old(self), digest, *final(self)),
            forall|other: u64|
                may_contain(old(self)@, old(self).hashes(), other) ==> may_contain(
                    final(self)@,
                    final(self).hashes(),
                    other,
                ),
    {
        let digest = self.compute_digest(key);
        self.set_digest(digest);
    }
}

/// What `with_sizes` returns: a filter of `nbits` zero bits that probes
/// `nhashes` bits per key.
pub open spec fn is_fresh<H: Hasher + Default>(
    filter: BloomFilter<H>,
    nbits: usize,
    nhashes: usize,
) -> bool {
    &&& filter.wf()
    &&& filter.hashes() == nhashes
    &&& filter@ =~= Seq::new(nbits as nat, |p: int| false)
}

/// What `set_digest` does: `after` is `before` with the bits of `digest`'s
/// probes set too, and with the same number of probes per key.
pub open spec fn is_inserted<H: Hasher + Default>(
    before: BloomFilter<H>,
    digest: u64,
    after: BloomFilter<H>,
) -> bool {
    &&& after.wf()
    &&& after.hashes() == before.hashes()
    &&& after@ =~= inserted(before@, before.hashes(), digest)
}

/// The first `i + 1` probes fall on `p` exactly if the first `i` do or probe
/// `i` does.
proof fn lemma_probes_step(digest: u64, i: nat, m: nat, p: int)
    ensures
        probes(digest, i + 1, m, p) <==> probes(digest, i, m, p) || spec_index(digest, i, m) == p,
{
    if probes(digest, i + 1, m, p) {
        let j = choose|j: nat| j < i + 1 && #[trigger] spec_index(digest, j, m) == p;
        if j < i {
            assert(probes(digest, i, m, p));
        }
    }
    if probes(digest, i, m, p) {
        let j = choose|j: nat| j < i && #[trigger] spec_index(digest, j, m) == p;
        assert(j < i + 1 && spec_index(digest, j, m) == p);
    }
    if spec_index(digest, i, m) == p {
        assert(probes(digest, i + 1, m, p));
    }
}

/// A filter with no bit set reports no digest, as long as it probes at all.
pub proof fn lemma_cleared_holds_nothing(bits: Seq<bool>, k: nat, digest: u64)
    requires
        bits.len() >= 1,
        k >= 1,
        forall|p: int| 0 <= p < bits.len() ==> !bits[p],
    ensures
        !may_contain(bits, k, digest),
{
    let p = spec_index(digest, 0, bits.len());
    assert(0 <= p < bits.len() && !bits[p]);
}

/// After a digest is inserted, every one of its probes finds its bit set.
pub proof fn lemma_inserted_is_found(bits: Seq<bool>, k: nat, digest: u64)
    requires
        bits.len() >= 1,
    ensures
        may_contain(inserted(bits, k, digest), k, digest),
{
    let m = bits.len();
    assert forall|i: nat| i < k implies inserted(bits, k, digest)[#[trigger] spec_index(
        digest,
        i,
        m,
    )] by {
        let p = spec_index(digest, i, m);
        assert(0 <= p < m && probes(digest, k, m, p));
    }
}

/// Inserting one digest never hides another: what was found before is found
/// after.
pub proof fn lemma_inserted_keeps(bits: Seq<bool>, k: nat, digest: u64, other: u64)
    requires
        bits.len() >= 1,
        may_contain(bits, k, other),
    ensures
        may_contain(inserted(bits, k, digest), k, other),
{
    let m = bits.len();
    assert forall|i: nat| i < k implies inserted(bits, k, digest)[#[trigger] spec_index(
        other,
        i,
        m,
    )] by {
        let p = spec_index(other, i, m);
        assert(0 <= p < m && bits[p]);
    }
}

proof fn lemma_inserts<H: Hasher + Default>(
    steps: Seq<BloomFilter<H>>,
    digests: Seq<u64>,
    j: int,
    t: int,
)
    requires
        steps.len() == digests.len() + 1,
        steps[0].wf(),
        forall|s: int|
            0 <= s < digests.len() ==> #[trigger] is_inserted(steps[s], digests[s], steps[s + 1]),
        0 <= j < t <= digests.len(),
    ensures
        steps[t].wf(),
        steps[t].hashes() == steps[0].hashes(),
        steps[t]@.len() == steps[0]@.len(),
        may_contain(steps[t]@, steps[t].hashes(), digests[j]),
    decreases t,
{
    lemma_sizes_stay(steps, digests, t - 1);
    let s = t - 1;
    assert(is_inserted(steps[s], digests[s], steps[s + 1]));
    if s == j {
        lemma_inserted_is_found(steps[s]@, steps[s].hashes(), digests[j]);
    } else {
        lemma_inserts(steps, digests, j, s);
        lemma_inserted_keeps(steps[s]@, steps[s].hashes(), digests[s], digests[j]);
    }
}

proof fn lemma_sizes_stay<H: Hasher + Default>(
    steps: Seq<BloomFilter<H>>,
    digests: Seq<u64>,
    t: int,
)
    requires
        steps.len() == digests.len() + 1,
        steps[0].wf(),
        forall|s: int|
            0 <= s < digests.len() ==> #[trigger] is_inserted(steps[s], digests[s], steps[s + 1]),
        0 <= t <= digests.len(),
    ensures
        steps[t].wf(),
        steps[t].hashes() == steps[0].hashes(),
        steps[t]@.len() == steps[0]@.len(),
    decreases t,
{
    if t > 0 {
        let s = t - 1;
        lemma_sizes_stay(steps, digests, s);
        assert(is_inserted(steps[s], digests[s], steps[s + 1]));
    }
}

/// No false negatives: after any run of insertions, every digest that was
/// inserted in it is reported as possibly present. `steps` holds the filter
/// before the first insertion and after each one, with no `clear` between.
pub proof fn law_no_false_negatives<H: Hasher + Default>(
    steps: Seq<BloomFilter<H>>,
    digests: Seq<u64>,
    j: int,
)
    requires
        steps.len() == digests.len() + 1,
        steps[0].wf(),
        forall|s: int|
            0 <= s < digests.len() ==> #[trigger] is_inserted(steps[s], digests[s], steps[s + 1]),
        0 <= j < digests.len(),
    ensures
        may_contain(steps.last()@, steps.last().hashes(), digests[j]),
{
    lemma_inserts(steps, digests, j, digests.len() as int);
}

/// Clear resets membership: a filter whose bits are all zero, as `clear`
/// and `with_sizes` leave it, reports no digest at all.
pub proof fn law_clear_resets<H: Hasher + Default>(filter: BloomFilter<H>, digest: u64)
    requires
        filter.wf(),
        filter@ == Seq::new(filter@.len(), |p: int| false),
    ensures
        !may_contain(filter@, filter.hashes(), digest),
{
    filter.lemma_sizes();
    lemma_cleared_holds_nothing(filter@, filter.hashes(), digest);
}

proof fn lemma_same_inserts<H: Hasher + Default>(
    a: Seq<BloomFilter<H>>,
    b: Seq<BloomFilter<H>>,
    digests: Seq<u64>,
    t: int,
)
    requires
        a.len() == digests.len() + 1,
        b.len() == digests.len() + 1,
        a[0]@ == b[0]@,
        a[0].hashes() == b[0].hashes(),
        forall|s: int| 0 <= s < digests.len() ==> #[trigger] is_inserted(a[s], digests[s], a[s + 1]),
        forall|s: int| 0 <= s < digests.len() ==> #[trigger] is_inserted(b[s], digests[s], b[s + 1]),
        0 <= t <= digests.len(),
    ensures
        a[t]@ == b[t]@,
        a[t].hashes() == b[t].hashes(),
    decreases t,
{
    if t > 0 {
        let s = t - 1;
        lemma_same_inserts(a, b, digests, s);
        assert(is_inserted(a[s], digests[s], a[s + 1]));
        assert(is_inserted(b[s], digests[s], b[s + 1]));
    }
}

/// Determinism: two filters created with the same sizes and fed the same
/// digests in the same order end in the same state, bit for bit: the same
/// bits in the same words, and the same number of probes. `a` and `b` hold
/// each filter before the first insertion and after each one.
pub proof fn law_determinism<H: Hasher + Default>(
    a: Seq<BloomFilter<H>>,
    b: Seq<BloomFilter<H>>,
    digests: Seq<u64>,
    nbits: usize,
    nhashes: usize,
)
    requires
        a.len() == digests.len() + 1,
        b.len() == digests.len() + 1,
        is_fresh(a[0], nbits, nhashes),
        is_fresh(b[0], nbits, nhashes),
        forall|s: int| 0 <= s < digests.len() ==> #[trigger] is_inserted(a[s], digests[s], a[s + 1]),
        forall|s: int| 0 <= s < digests.len() ==> #[trigger] is_inserted(b[s], digests[s], b[s + 1]),
    ensures
        a.last()@ == b.last()@,
        a.last().hashes() == b.last().hashes(),
        a.last().words() == b.last().words(),
{
    let n = digests.len() as int;
    lemma_same_inserts(a, b, digests, n);
    lemma_sizes_stay(a, digests, n);
    lemma_sizes_stay(b, digests, n);
    a[n].lemma_words(b[n]);
}

} // verus!
