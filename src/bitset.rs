//! Fixed-width signature sets: one bit per registered component kind.
use vstd::prelude::*;

verus! {

/// Number of distinct component kinds a signature can hold.
pub const MAX_KINDS: usize = 128;

/// Whether bit `k` of `x` is set.
pub open spec fn bit_of(x: u128, k: nat) -> bool {
    k < 128 && (x >> (k as u128)) & 1u128 == 1u128
}

proof fn lemma_bits_empty(k: u128)
    requires
        k < 128,
    ensures
        (0u128 >> k) & 1u128 == 0u128,
{
    assert((0u128 >> k) & 1u128 == 0u128) by (bit_vector)
        requires
            k < 128,
    ;
}

proof fn lemma_bits_set(x: u128, k: u128, j: u128)
    requires
        k < 128,
        j < 128,
    ensures
        ((x | (1u128 << k)) >> j) & 1u128 == 1u128 <==> (j == k || (x >> j) & 1u128 == 1u128),
{
    assert(((x | (1u128 << k)) >> j) & 1u128 == 1u128 <==> (j == k || (x >> j) & 1u128 == 1u128))
        by (bit_vector)
        requires
            k < 128,
            j < 128,
    ;
}

proof fn lemma_bits_clear(x: u128, k: u128, j: u128)
    requires
        k < 128,
        j < 128,
    ensures
        ((x & !(1u128 << k)) >> j) & 1u128 == 1u128 <==> (j != k && (x >> j) & 1u128 == 1u128),
{
    assert(((x & !(1u128 << k)) >> j) & 1u128 == 1u128 <==> (j != k && (x >> j) & 1u128
        == 1u128)) by (bit_vector)
        requires
            k < 128,
            j < 128,
    ;
}

proof fn lemma_bits_union(a: u128, b: u128, j: u128)
    requires
        j < 128,
    ensures
        ((a | b) >> j) & 1u128 == 1u128 <==> ((a >> j) & 1u128 == 1u128 || (b >> j) & 1u128
            == 1u128),
{
    assert(((a | b) >> j) & 1u128 == 1u128 <==> ((a >> j) & 1u128 == 1u128 || (b >> j) & 1u128
        == 1u128)) by (bit_vector)
        requires
            j < 128,
    ;
}

proof fn lemma_bits_intersect(a: u128, b: u128, j: u128)
    requires
        j < 128,
    ensures
        ((a & b) >> j) & 1u128 == 1u128 <==> ((a >> j) & 1u128 == 1u128 && (b >> j) & 1u128
            == 1u128),
{
    assert(((a & b) >> j) & 1u128 == 1u128 <==> ((a >> j) & 1u128 == 1u128 && (b >> j) & 1u128
        == 1u128)) by (bit_vector)
        requires
            j < 128,
    ;
}

proof fn lemma_bits_missing(m: u128, a: u128, j: u128)
    requires
        j < 128,
    ensures
        ((m & !a) >> j) & 1u128 == 1u128 <==> ((m >> j) & 1u128 == 1u128 && (a >> j) & 1u128
            != 1u128),
{
    assert(((m & !a) >> j) & 1u128 == 1u128 <==> ((m >> j) & 1u128 == 1u128 && (a >> j) & 1u128
        != 1u128)) by (bit_vector)
        requires
            j < 128,
    ;
}

/// A word with no set bit among its low `128 - from` positions, shifted by
/// `from`, is zero: every nonzero word has a set bit.
proof fn lemma_nonzero_has_bit(x: u128, from: u128)
    requires
        from < 128,
        (x >> from) != 0,
    ensures
        exists|k: nat| from <= k < 128 && #[trigger] bit_of(x, k),
    decreases 128 - from,
{
    let y = x >> from;
    if y & 1u128 == 1u128 {
        assert(bit_of(x, from as nat));
    } else {
        assert((x >> from) != 0 && (x >> from) & 1u128 != 1u128 && from < 128 ==> from + 1 < 128
            && (x >> (from + 1)) != 0) by (bit_vector);
        lemma_nonzero_has_bit(x, (from + 1) as u128);
    }
}

/// A set of component kinds, each below `MAX_KINDS`, held in one word.
#[derive(Clone, Copy, Debug, PartialEq, Eq, Structural)]
pub struct BitSet {
    bits: u128,
}

impl View for BitSet {
    type V = Set<nat>;

    closed spec fn view(&self) -> Set<nat> {
        Set::new(|k: nat| bit_of(self.bits, k))
    }
}

impl BitSet {
    /// Every member of a signature is a valid kind index.
    pub proof fn lemma_bounded(&self)
        ensures
            forall|k: nat| #[trigger] self@.contains(k) ==> k < MAX_KINDS,
    {
    }

    /// The empty signature.
    pub fn new() -> (r: BitSet)
        ensures
            r@ == Set::<nat>::empty(),
    {
        let r = BitSet { bits: 0 };
        assert forall|k: nat| !#[trigger] r@.contains(k) by {
            if k < 128 {
                lemma_bits_empty(k as u128);
            }
        }
        assert(r@ =~= Set::<nat>::empty());
        r
    }

    /// The signature holding `k` alone.
    pub fn from_index(k: usize) -> (r: BitSet)
        requires
            k < MAX_KINDS,
        ensures
            r@ == Set::<nat>::empty().insert(k as nat),
    {
        let mut r = BitSet::new();
        r.insert(k);
        r
    }

    /// Whether kind `k` is a member.
    pub fn contains(&self, k: usize) -> (r: bool)
        ensures
            r == self@.contains(k as nat),
    {
        if k >= MAX_KINDS {
            false
        } else {
            (self.bits >> (k as u128)) & 1 == 1
        }
    }

    /// Adds kind `k`.
    pub fn insert(&mut self, k: usize)
        requires
            k < MAX_KINDS,
        ensures
            final(self)@ == old(self)@.insert(k as nat),
    {
        let x = self.bits;
        self.bits = x | (1u128 << (k as u128));
        assert forall|j: nat| #[trigger] self@.contains(j) == old(self)@.insert(k as nat).contains(
            j,
        ) by {
            if j < 128 {
                lemma_bits_set(x, k as u128, j as u128);
            }
        }
        assert(self@ =~= old(self)@.insert(k as nat));
    }

    /// Takes kind `k` out.
    pub fn remove(&mut self, k: usize)
        requires
            k < MAX_KINDS,
        ensures
            final(self)@ == old(self)@.remove(k as nat),
    {
        let x = self.bits;
        self.bits = x & !(1u128 << (k as u128));
        assert forall|j: nat| #[trigger] self@.contains(j) == old(self)@.remove(k as nat).contains(
            j,
        ) by {
            if j < 128 {
                lemma_bits_clear(x, k as u128, j as u128);
            }
        }
        assert(self@ =~= old(self)@.remove(k as nat));
    }

    /// The kinds in either signature.
    pub fn union_with(&self, other: &BitSet) -> (r: BitSet)
        ensures
            r@ == self@.union(other@),
    {
        let r = BitSet { bits: self.bits | other.bits };
        assert forall|j: nat| #[trigger] r@.contains(j) == self@.union(other@).contains(j) by {
            if j < 128 {
                lemma_bits_union(self.bits, other.bits, j as u128);
            }
        }
        assert(r@ =~= self@.union(other@));
        r
    }

    /// The kinds in both signatures.
    pub fn intersect_with(&self, other: &BitSet) -> (r: BitSet)
        ensures
            r@ == self@.intersect(other@),
    {
        let r = BitSet { bits: self.bits & other.bits };
        assert forall|j: nat| #[trigger] r@.contains(j) == self@.intersect(other@).contains(j) by {
            if j < 128 {
                lemma_bits_intersect(self.bits, other.bits, j as u128);
            }
        }
        assert(r@ =~= self@.intersect(other@));
        r
    }

    /// Whether no kind is a member.
    pub fn is_empty(&self) -> (r: bool)
        ensures
            r == (self@ == Set::<nat>::empty()),
    {
        if self.bits == 0 {
            assert forall|k: nat| !#[trigger] self@.contains(k) by {
                if k < 128 {
                    lemma_bits_empty(k as u128);
                }
            }
            assert(self@ =~= Set::<nat>::empty());
            true
        } else {
            let ghost x = self.bits;
            proof {
                assert(x >> 0u128 == x) by (bit_vector);
                lemma_nonzero_has_bit(x, 0);
            }
            let ghost k = choose|k: nat| 0 <= k < 128 && #[trigger] bit_of(self.bits, k);
            assert(self@.contains(k));
            false
        }
    }

    /// Whether every kind of `mask` is a member of this signature, tested a
    /// word at a time.
    pub fn contains_all(&self, mask: &BitSet) -> (r: bool)
        ensures
            r == mask@.subset_of(self@),
    {
        let missing = mask.bits & !self.bits;
        if missing == 0 {
            assert forall|j: nat| #[trigger] mask@.contains(j) implies self@.contains(j) by {
                lemma_bits_missing(mask.bits, self.bits, j as u128);
                assert(j < 128);
                lemma_bits_empty(j as u128);
            }
            true
        } else {
            proof {
                assert(missing >> 0u128 == missing) by (bit_vector);
                lemma_nonzero_has_bit(missing, 0);
            }
            let ghost k = choose|k: nat| 0 <= k < 128 && #[trigger] bit_of(missing, k);
            proof {
                lemma_bits_missing(mask.bits, self.bits, k as u128);
            }
            assert(mask@.contains(k) && !self@.contains(k));
            false
        }
    }
}

} // verus!
