use vstd::prelude::*;

verus! {

/// Identifier of a scene object; the number it holds is never 0.
#[derive(Debug, Clone, Copy, PartialEq, Eq, PartialOrd, Ord, Hash)]
pub struct ObjectId(u32);

impl ObjectId {
    #[verifier::type_invariant]
    spec fn inv(self) -> bool {
        self.0 != 0
    }

    /// The number this identifier holds.
    pub closed spec fn value(self) -> u32 {
        self.0
    }

    /// The position that this identifier takes in tables indexed by object.
    pub open spec fn zero_based(self) -> int {
        self.value() - 1
    }

    /// Identifiers that hold the same number are the same identifier.
    pub proof fn lemma_value_injective(a: ObjectId, b: ObjectId)
        ensures
            a.value() == b.value() <==> a == b,
    {
    }

    pub fn new(id: u32) -> (r: ObjectId)
        requires
            id != 0,
        ensures
            r.value() == id,
    {
        ObjectId(id)
    }

    pub fn get(&self) -> (r: u32)
        ensures
            r == self.value(),
            r != 0,
    {
        proof {
            use_type_invariant(self);
        }
        self.0
    }

    pub fn get_zero_based_u32(&self) -> (r: u32)
        ensures
            r == self.zero_based(),
            0 <= self.zero_based(),
    {
        proof {
            use_type_invariant(self);
        }
        self.0 - 1
    }
}

} // verus!
