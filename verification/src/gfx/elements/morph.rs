use std::collections::BTreeMap;
use vstd::prelude::*;

verus! {

broadcast use {vstd::std_specs::btree::group_btree_axioms, vstd::laws_cmp::group_laws_cmp};

/// The material offsets of the morphs active on one material, by morph index,
/// and whether they changed since the material's value was last recomputed.
/// The offsets are of any type.
#[derive(Debug)]
pub struct MaterialActiveOffset<O> {
    pub is_dirty: bool,
    pub offsets: BTreeMap<u32, O>,
}

impl<O> MaterialActiveOffset<O> {
    pub fn new() -> (r: MaterialActiveOffset<O>)
        ensures
            !r.is_dirty,
            r.offsets@ == Map::<u32, O>::empty(),
    {
        MaterialActiveOffset { is_dirty: false, offsets: BTreeMap::new() }
    }

    /// Records the morph's offset, unless the morph has one already; a new
    /// offset marks the set changed.
    pub fn add(&mut self, morph_index: u32, offset: O)
        ensures
            old(self).offsets@.contains_key(morph_index) ==> *final(self) == *old(self),
            !old(self).offsets@.contains_key(morph_index) ==> final(self).offsets@ == old(
                self,
            ).offsets@.insert(morph_index, offset) && final(self).is_dirty,
    {
        if !self.offsets.contains_key(&morph_index) {
            self.offsets.insert(morph_index, offset);
            self.is_dirty = true;
        }
    }

    /// Forgets the morph's offset; removing one marks the set changed.
    pub fn remove(&mut self, morph_index: u32)
        ensures
            final(self).offsets@ == old(self).offsets@.remove(morph_index),
            final(self).is_dirty == (old(self).is_dirty || old(self).offsets@.contains_key(morph_index)),
    {
        match self.offsets.remove(&morph_index) {
            Some(_) => {
                self.is_dirty = true;
            },
            None => {},
        }
    }
}

} // verus!
