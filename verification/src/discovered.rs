//! The discovered-cell bitmap: one bit per board cell, set once the cell's
//! pair has been matched. The bits live in a `bitvec::vec::BitVec`, which
//! Verus cannot look into, so the vector sits in an opaque struct and its
//! contents are named by [`bits_of`]; every operation the engine needs goes
//! through a wrapper whose contract speaks over that name.

use vstd::prelude::*;

verus! {

/// One bit per board cell; a set bit means the cell's pair was matched.
#[verifier::external_body]
pub struct DiscoveredSet {
    inner: bitvec::vec::BitVec,
}

/// The bits held by a discovered set, in cell order.
pub uninterp spec fn bits_of(s: DiscoveredSet) -> Seq<bool>;

/// How many bits of a sequence are set.
pub open spec fn count_trues(s: Seq<bool>) -> nat
    decreases s.len(),
{
    if s.len() == 0 {
        0
    } else {
        count_trues(s.drop_last()) + if s.last() {
            1nat
        } else {
            0nat
        }
    }
}

/// Whether every bit of a sequence is set.
pub open spec fn all_true(s: Seq<bool>) -> bool {
    forall|i: int| 0 <= i < s.len() ==> s[i]
}

impl DiscoveredSet {
    /// Relies on `BitVec::repeat` from bitvec: a bit vector holding `len`
    /// copies of `bit`.
    #[verifier::external_body]
    pub(crate) fn repeat(bit: bool, len: usize) -> (r: DiscoveredSet)
        ensures
            bits_of(r) == Seq::new(len as nat, |i: int| bit),
    {
        DiscoveredSet { inner: bitvec::vec::BitVec::repeat(bit, len) }
    }

    /// Relies on `BitVec::len` from bitvec: the number of bits held.
    #[verifier::external_body]
    pub(crate) fn len(&self) -> (r: usize)
        ensures
            r == bits_of(*self).len(),
    {
        self.inner.len()
    }

    /// Relies on `BitSlice::set` from bitvec: it writes `value` at position
    /// `index` and leaves every other bit alone; it panics out of bounds,
    /// which the bound on `index` rules out.
    #[verifier::external_body]
    pub(crate) fn set(&mut self, index: usize, value: bool)
        requires
            index < bits_of(*old(self)).len(),
        ensures
            bits_of(*final(self)) == bits_of(*old(self)).update(index as int, value),
    {
        self.inner.set(index, value);
    }

    /// Relies on `BitSlice::get` from bitvec: within bounds it returns a
    /// reference to the bit at `index`.
    #[verifier::external_body]
    pub(crate) fn get(&self, index: usize) -> (r: bool)
        requires
            index < bits_of(*self).len(),
        ensures
            r == bits_of(*self)[index as int],
    {
        *self.inner.get(index).unwrap()
    }

    /// Relies on `BitSlice::count_ones` from bitvec: how many bits are set.
    #[verifier::external_body]
    pub(crate) fn count_ones(&self) -> (r: usize)
        ensures
            r == count_trues(bits_of(*self)),
    {
        self.inner.count_ones()
    }
}

/// The set-bit count never exceeds the length, and reaches it exactly when
/// every bit is set.
pub proof fn lemma_count_trues_all(s: Seq<bool>)
    ensures
        count_trues(s) <= s.len(),
        (count_trues(s) == s.len()) <==> all_true(s),
    decreases s.len(),
{
    if s.len() > 0 {
        lemma_count_trues_all(s.drop_last());
        assert(forall|i: int| 0 <= i < s.len() - 1 ==> s.drop_last()[i] == s[i]);
        if count_trues(s) == s.len() {
            assert(count_trues(s.drop_last()) == s.drop_last().len());
            assert forall|i: int| 0 <= i < s.len() implies s[i] by {
                if i < s.len() - 1 {
                    assert(s.drop_last()[i]);
                } else {
                    assert(s.last());
                }
            }
        }
        if all_true(s) {
            assert(all_true(s.drop_last()));
            assert(s.last());
        }
    }
}

} // verus!
