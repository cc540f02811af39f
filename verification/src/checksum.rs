//! The order-independent digest accumulator.
//!
//! Seeds are merged by bytewise exclusive-or, which is commutative and
//! associative with the zero digest as identity. The final value therefore
//! depends only on the multiset of submitted seeds, never on the order or
//! interleaving in which concurrent tasks submitted them.

use vstd::prelude::*;

verus! {

/// The all-zero digest, the accumulator's identity value.
pub open spec fn zero_digest() -> Seq<u8> {
    Seq::new(crate::DIGEST_LEN as nat, |i: int| 0u8)
}

/// Bytewise exclusive-or of two digests; the accumulator's combine rule.
pub open spec fn combine(a: Seq<u8>, b: Seq<u8>) -> Seq<u8> {
    Seq::new(a.len(), |i: int| a[i] ^ b[i])
}

/// Combining is commutative on equal-width digests.
pub proof fn lemma_combine_commutes(a: Seq<u8>, b: Seq<u8>)
    requires
        a.len() == b.len(),
    ensures
        combine(a, b) == combine(b, a),
{
    assert(forall|x: u8, y: u8| #[trigger] (x ^ y) == y ^ x) by (bit_vector);
    assert(combine(a, b) =~= combine(b, a));
}

/// Combining is associative on equal-width digests.
pub proof fn lemma_combine_associates(a: Seq<u8>, b: Seq<u8>, c: Seq<u8>)
    requires
        a.len() == b.len(),
    ensures
        combine(combine(a, b), c) == combine(a, combine(b, c)),
{
    assert(forall|x: u8, y: u8, z: u8| #[trigger] ((x ^ y) ^ z) == x ^ (y ^ z)) by (bit_vector);
    assert(combine(combine(a, b), c) =~= combine(a, combine(b, c)));
}

/// The order in which two seeds reach an accumulated value is immaterial.
pub proof fn lemma_submit_order_immaterial(v: Seq<u8>, a: Seq<u8>, b: Seq<u8>)
    ensures
        combine(combine(v, a), b) == combine(combine(v, b), a),
{
    assert(forall|x: u8, y: u8, z: u8| #[trigger] ((x ^ y) ^ z) == (x ^ z) ^ y) by (bit_vector);
    assert(combine(combine(v, a), b) =~= combine(combine(v, b), a));
}

/// The combination of a sequence of seeds, folded from the identity.
pub open spec fn sum_seeds(seeds: Seq<Seq<u8>>) -> Seq<u8>
    decreases seeds.len(),
{
    if seeds.len() == 0 {
        zero_digest()
    } else {
        combine(sum_seeds(seeds.drop_last()), seeds.last())
    }
}

/// Submitting one more seed combines it into the running fold.
pub proof fn lemma_sum_seeds_push(seeds: Seq<Seq<u8>>, s: Seq<u8>)
    ensures
        sum_seeds(seeds.push(s)) == combine(sum_seeds(seeds), s),
{
    assert(seeds.push(s).drop_last() =~= seeds);
    assert(seeds.push(s).last() == s);
}

/// Removing a seed from any position and combining it last gives the same
/// value as summing the sequence as it stands.
proof fn lemma_sum_seeds_remove(seeds: Seq<Seq<u8>>, i: int)
    requires
        0 <= i < seeds.len(),
    ensures
        sum_seeds(seeds) == combine(sum_seeds(seeds.remove(i)), seeds[i]),
    decreases seeds.len(),
{
    if i == seeds.len() - 1 {
        assert(seeds.remove(i) =~= seeds.drop_last());
    } else {
        let shorter = seeds.drop_last();
        lemma_sum_seeds_remove(shorter, i);
        assert(seeds.remove(i).drop_last() =~= shorter.remove(i));
        assert(seeds.remove(i).last() == seeds.last());
        lemma_submit_order_immaterial(sum_seeds(shorter.remove(i)), seeds.last(), seeds[i]);
    }
}

/// Order independence: two runs that produce the same multiset of seeds —
/// whatever the thread count, scheduling, or directory read order — fold to
/// the same checksum.
pub proof fn lemma_sum_seeds_permutation(s1: Seq<Seq<u8>>, s2: Seq<Seq<u8>>)
    requires
        s1.to_multiset() == s2.to_multiset(),
    ensures
        sum_seeds(s1) == sum_seeds(s2),
    decreases s1.len(),
{
    s1.to_multiset_ensures();
    s2.to_multiset_ensures();
    if s1.len() == 0 {
        assert(s2.len() == 0);
    } else {
        let a = s1.last();
        let last = s1.len() - 1;
        assert(s1.remove(last).to_multiset() =~= s1.to_multiset().remove(a));
        assert(s1.to_multiset().count(a) > 0);
        assert(s2.contains(a));
        let j = choose|j: int| 0 <= j < s2.len() && s2[j] == a;
        assert(s2.remove(j).to_multiset() =~= s2.to_multiset().remove(a));
        assert(s1.remove(last) =~= s1.drop_last());
        lemma_sum_seeds_permutation(s1.drop_last(), s2.remove(j));
        lemma_sum_seeds_remove(s2, j);
    }
}

/// The running checksum: a digest-width value that merges submitted seeds by
/// a commutative, associative rule.
#[derive(Debug)]
pub struct Checksum {
    bytes: Vec<u8>,
}

impl View for Checksum {
    type V = Seq<u8>;

    closed spec fn view(&self) -> Seq<u8> {
        self.bytes@
    }
}

impl Checksum {
    /// A checksum holds exactly one digest width of bytes.
    pub closed spec fn wf(&self) -> bool {
        self.bytes@.len() == crate::DIGEST_LEN
    }

    /// A fresh accumulator holding the identity value.
    pub fn new() -> (r: Checksum)
        ensures
            r.wf(),
            r@ == zero_digest(),
    {
        let mut bytes: Vec<u8> = Vec::new();
        let mut i: usize = 0;
        while i < crate::DIGEST_LEN
            invariant
                i <= crate::DIGEST_LEN,
                bytes@.len() == i,
                forall|j: int| 0 <= j < i ==> bytes@[j] == 0u8,
            decreases crate::DIGEST_LEN - i,
        {
            bytes.push(0u8);
            i = i + 1;
        }
        let r = Checksum { bytes };
        assert(r@ =~= zero_digest());
        r
    }

    /// Merge one seed into the running value.
    pub fn put(&mut self, seed: &Vec<u8>)
        requires
            old(self).wf(),
            seed@.len() == crate::DIGEST_LEN,
        ensures
            final(self).wf(),
            final(self)@ == combine(old(self)@, seed@),
    {
        let mut i: usize = 0;
        while i < crate::DIGEST_LEN
            invariant
                i <= crate::DIGEST_LEN,
                self.bytes@.len() == crate::DIGEST_LEN,
                seed@.len() == crate::DIGEST_LEN,
                forall|j: int| 0 <= j < i ==> self.bytes@[j] == (old(self)@[j] ^ seed@[j]),
                forall|j: int| i <= j < crate::DIGEST_LEN ==> self.bytes@[j] == old(self)@[j],
            decreases crate::DIGEST_LEN - i,
        {
            let merged: u8 = self.bytes[i] ^ seed[i];
            self.bytes.set(i, merged);
            i = i + 1;
        }
        assert(final(self)@ =~= combine(old(self)@, seed@));
    }

    /// The accumulated digest; read once, after every submission is in.
    pub fn value(&self) -> (r: &Vec<u8>)
        ensures
            r@ == self@,
    {
        &self.bytes
    }
}

} // verus!
