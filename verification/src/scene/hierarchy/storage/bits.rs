use bitvec::vec::BitVec;
use vstd::prelude::*;

verus! {

/// A `bitvec` bit-vector (`BitVec` with its default storage and order),
/// holding one flag per object of the hierarchy; the bits it holds are
/// `bits(..)`, and only the calls below reach them.
#[verifier::external_body]
pub struct Bits {
    inner: BitVec,
}

/// The bits a bit-vector holds, in order.
pub uninterp spec fn bits(v: Bits) -> Seq<bool>;

impl Bits {
    /// Calls `BitVec::with_capacity`: an empty bit-vector (it panics past
    /// `usize::MAX >> 3` bits).
    #[verifier::external_body]
    pub(crate) fn with_capacity(capacity: usize) -> (r: Bits)
        requires
            capacity <= usize::MAX / 8,
        ensures
            bits(r) == Seq::<bool>::empty(),
    {
        Bits { inner: BitVec::with_capacity(capacity) }
    }

    /// Calls `BitVec::len`: the number of bits.
    #[verifier::external_body]
    pub(crate) fn len(&self) -> (r: usize)
        ensures
            r == bits(*self).len(),
    {
        self.inner.len()
    }

    /// Reads one bit (`BitSlice`'s `Index<usize>`), which panics out of bounds.
    #[verifier::external_body]
    pub(crate) fn get(&self, index: usize) -> (r: bool)
        requires
            index < bits(*self).len(),
        ensures
            r == bits(*self)[index as int],
    {
        self.inner[index]
    }

    /// Calls `BitVec::push`: appends one bit. It panics past `BitSlice::MAX_BITS`
    /// (`usize::MAX >> 3`).
    #[verifier::external_body]
    pub(crate) fn push(&mut self, value: bool)
        requires
            bits(*old(self)).len() + 1 <= usize::MAX / 8,
        ensures
            bits(*final(self)) == bits(*old(self)).push(value),
    {
        self.inner.push(value)
    }

    /// Calls `BitSlice::set`: writes one bit; it panics out of bounds.
    #[verifier::external_body]
    pub(crate) fn set(&mut self, index: usize, value: bool)
        requires
            index < bits(*old(self)).len(),
        ensures
            bits(*final(self)) == bits(*old(self)).update(index as int, value),
    {
        self.inner.set(index, value)
    }

    /// Calls `BitSlice::fill` on the bits `start..end` (slicing panics unless
    /// `start <= end <= len`).
    #[verifier::external_body]
    pub(crate) fn fill_range(&mut self, start: usize, end: usize, value: bool)
        requires
            start <= end <= bits(*old(self)).len(),
        ensures
            bits(*final(self)).len() == bits(*old(self)).len(),
            forall|i: int|
                0 <= i < bits(*old(self)).len() ==> #[trigger] bits(*final(self))[i] == if start <= i
                    < end {
                    value
                } else {
                    bits(*old(self))[i]
                },
    {
        self.inner[start..end].fill(value)
    }

    /// Calls `BitSlice::fill` on all bits.
    #[verifier::external_body]
    pub(crate) fn fill(&mut self, value: bool)
        ensures
            bits(*final(self)).len() == bits(*old(self)).len(),
            forall|i: int| 0 <= i < bits(*old(self)).len() ==> #[trigger] bits(*final(self))[i] == value,
    {
        self.inner.fill(value)
    }

    /// Calls `BitSlice::copy_within(src_start..src_end, dest)`: the bits of the
    /// source range are copied to the range that starts at `dest`. It panics
    /// unless `src_start < len`, `src_end <= len`, `dest < len` and the
    /// destination range ends within `len`.
    #[verifier::external_body]
    pub(crate) fn copy_within(&mut self, src_start: usize, src_end: usize, dest: usize)
        requires
            src_start <= src_end,
            src_start < bits(*old(self)).len(),
            src_end <= bits(*old(self)).len(),
            dest < bits(*old(self)).len(),
            dest + (src_end - src_start) <= bits(*old(self)).len(),
        ensures
            bits(*final(self)).len() == bits(*old(self)).len(),
            forall|i: int|
                0 <= i < bits(*old(self)).len() ==> #[trigger] bits(*final(self))[i] == if dest <= i
                    < dest + (src_end - src_start) {
                    bits(*old(self))[i - dest + src_start]
                } else {
                    bits(*old(self))[i]
                },
    {
        self.inner.copy_within(src_start..src_end, dest)
    }

    /// Calls `BitVec::truncate`: keeps the first `len` bits (all of them when
    /// there are fewer).
    #[verifier::external_body]
    pub(crate) fn truncate(&mut self, len: usize)
        ensures
            bits(*final(self)) == if len < bits(*old(self)).len() {
                bits(*old(self)).take(len as int)
            } else {
                bits(*old(self))
            },
    {
        self.inner.truncate(len)
    }

    /// Calls `BitSlice::to_bitvec` on the bits `start..end`: a new bit-vector
    /// holding a copy of them.
    #[verifier::external_body]
    pub(crate) fn range_to_bits(&self, start: usize, end: usize) -> (r: Bits)
        requires
            start <= end <= bits(*self).len(),
        ensures
            bits(r) == bits(*self).subrange(start as int, end as int),
    {
        Bits { inner: self.inner[start..end].to_bitvec() }
    }

    /// Calls `BitSlice::copy_from_bitslice` on the bits `start..end`: they
    /// become the bits of `src` (it panics unless the range lies within and
    /// is as long as `src`).
    #[verifier::external_body]
    pub(crate) fn copy_range_from(&mut self, start: usize, end: usize, src: &Bits)
        requires
            start <= end <= bits(*old(self)).len(),
            end - start == bits(*src).len(),
        ensures
            bits(*final(self)).len() == bits(*old(self)).len(),
            forall|i: int|
                0 <= i < bits(*old(self)).len() ==> #[trigger] bits(*final(self))[i] == if start <= i
                    < start + bits(*src).len() {
                    bits(*src)[i - start]
                } else {
                    bits(*old(self))[i]
                },
    {
        self.inner[start..end].copy_from_bitslice(&src.inner)
    }

    /// Calls `BitSlice::copy_from_bitslice` on all bits; it panics unless the
    /// lengths are equal.
    #[verifier::external_body]
    pub(crate) fn copy_from(&mut self, src: &Bits)
        requires
            bits(*src).len() == bits(*old(self)).len(),
        ensures
            bits(*final(self)) == bits(*src),
    {
        self.inner.copy_from_bitslice(&src.inner)
    }
}

} // verus!
