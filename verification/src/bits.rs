//! Trusted boundary around `bitvec`'s bit-vector, which backs every
//! column's null bitmap and the storage of BOOL columns.
//!
//! The bit-vector is held in one opaque struct; its contents are named by
//! the uninterpreted function [`bit_seq`], and each method states, over that
//! name, what the corresponding `bitvec` call does according to its source.

use vstd::prelude::*;

verus! {

/// A growable vector of bits, backed by `bitvec::vec::BitVec`.
#[verifier::external_body]
pub struct Bits {
    inner: bitvec::vec::BitVec,
}

/// The bits held by a bit-vector, in index order.
pub uninterp spec fn bit_seq(v: Bits) -> Seq<bool>;

/// Largest length up to which pushing one more bit is known not to abort
/// (`BitVec`'s capacity is bounded by `BitSlice::MAX_BITS`, which is at
/// least `2^27 - 1` bits on every machine this engine runs on).
pub open spec fn bits_fit(n: nat) -> bool {
    n < 0x7FFFFFF
}

impl Bits {
    /// Relies on `BitVec::new`: an empty bit-vector.
    #[verifier::external_body]
    pub fn new() -> (r: Bits)
        ensures
            bit_seq(r) == Seq::<bool>::empty(),
    {
        Bits { inner: bitvec::vec::BitVec::new() }
    }

    /// Relies on `BitVec::len`: the number of bits held.
    #[verifier::external_body]
    pub fn len(&self) -> (r: usize)
        ensures
            r == bit_seq(*self).len(),
    {
        self.inner.len()
    }

    /// Relies on `BitVec::push`: appends one bit at the end.
    #[verifier::external_body]
    pub fn push(&mut self, b: bool)
        requires
            bits_fit(bit_seq(*old(self)).len()),
        ensures
            bit_seq(*final(self)) == bit_seq(*old(self)).push(b),
    {
        self.inner.push(b);
    }

    /// Relies on `BitSlice::get` (through indexing): reads the bit at `i`.
    #[verifier::external_body]
    pub fn get(&self, i: usize) -> (r: bool)
        requires
            i < bit_seq(*self).len(),
        ensures
            r == bit_seq(*self)[i as int],
    {
        self.inner[i]
    }

    /// Relies on `BitSlice::set`: overwrites the bit at `i`.
    #[verifier::external_body]
    pub fn set(&mut self, i: usize, b: bool)
        requires
            i < bit_seq(*old(self)).len(),
        ensures
            bit_seq(*final(self)) == bit_seq(*old(self)).update(i as int, b),
    {
        self.inner.set(i, b);
    }

    /// Relies on `BitVec::remove`: removes the bit at `i`, shifting the rest
    /// down by one.
    #[verifier::external_body]
    pub fn remove(&mut self, i: usize)
        requires
            i < bit_seq(*old(self)).len(),
        ensures
            bit_seq(*final(self)) == bit_seq(*old(self)).remove(i as int),
    {
        let _ = self.inner.remove(i);
    }
}

} // verus!
