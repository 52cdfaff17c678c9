use super::object_id::ObjectId;
use vstd::prelude::*;

verus! {

/// Hands out object identifiers: identifiers given back are reused last-in
/// first-out, otherwise identifiers are counted up from 1.
#[derive(Debug)]
pub struct ObjectIdAllocator {
    next_id: u32,
    free_ids: Vec<ObjectId>,
}

/// What an allocator holds: the next fresh number and the identifiers given
/// back, the last one given back at the end.
pub struct AllocatorModel {
    pub next_id: u32,
    pub free_ids: Seq<ObjectId>,
}

impl AllocatorModel {
    /// The numbers that were handed out and have not been given back.
    pub open spec fn live(self) -> Set<u32> {
        Set::new(|v: u32| 1 <= v < self.next_id && !self.free_values().contains(v))
    }

    pub open spec fn free_values(self) -> Set<u32> {
        Set::new(|v: u32| exists|i: int| 0 <= i < self.free_ids.len() && self.free_ids[i].value() == v)
    }

    /// The next fresh number is never 0.
    pub open spec fn well_formed(self) -> bool {
        1 <= self.next_id
    }

    /// The free list holds only numbers below the next fresh one, each once.
    pub open spec fn tidy(self) -> bool {
        &&& 1 <= self.next_id
        &&& forall|i: int|
            0 <= i < self.free_ids.len() ==> 1 <= #[trigger] self.free_ids[i].value() < self.next_id
        &&& forall|i: int, j: int|
            0 <= i < j < self.free_ids.len() ==> self.free_ids[i].value() != self.free_ids[j].value()
    }

    /// Whether `allocate` can be called without running out of identifiers.
    pub open spec fn can_allocate(self) -> bool {
        self.free_ids.len() > 0 || self.next_id < u32::MAX
    }

    /// The number that `allocate` hands out.
    pub open spec fn allocated_value(self) -> u32 {
        if self.free_ids.len() > 0 {
            self.free_ids.last().value()
        } else {
            self.next_id
        }
    }

    /// The model after `allocate`.
    pub open spec fn after_allocate(self) -> AllocatorModel {
        if self.free_ids.len() > 0 {
            AllocatorModel { next_id: self.next_id, free_ids: self.free_ids.drop_last() }
        } else {
            AllocatorModel { next_id: (self.next_id + 1) as u32, free_ids: self.free_ids }
        }
    }

    /// The model after `deallocate(id)`.
    pub open spec fn after_deallocate(self, id: ObjectId) -> AllocatorModel {
        AllocatorModel { next_id: self.next_id, free_ids: self.free_ids.push(id) }
    }
}

impl View for ObjectIdAllocator {
    type V = AllocatorModel;

    closed spec fn view(&self) -> AllocatorModel {
        AllocatorModel { next_id: self.next_id, free_ids: self.free_ids@ }
    }
}

impl ObjectIdAllocator {
    pub fn new() -> (r: ObjectIdAllocator)
        ensures
            r@.next_id == 1,
            r@.free_ids == Seq::<ObjectId>::empty(),
            r@.well_formed(),
    {
        ObjectIdAllocator { next_id: 1, free_ids: Vec::new() }
    }

    /// Hands out the identifier given back last, or else the next fresh one.
    /// Fresh numbers must not be used up: the counter would overflow, which
    /// stops the program, so `can_allocate` is required.
    pub fn allocate(&mut self) -> (r: ObjectId)
        requires
            old(self)@.well_formed(),
            old(self)@.can_allocate(),
        ensures
            r.value() == old(self)@.allocated_value(),
            final(self)@ == old(self)@.after_allocate(),
            final(self)@.well_formed(),
    {
        match self.free_ids.pop() {
            Some(id) => id,
            None => {
                let id = self.next_id;
                self.next_id = self.next_id + 1;
                ObjectId::new(id)
            },
        }
    }

    pub fn deallocate(&mut self, id: ObjectId)
        ensures
            final(self)@ == old(self)@.after_deallocate(id),
            old(self)@.well_formed() ==> final(self)@.well_formed(),
    {
        self.free_ids.push(id);
    }
}

/// An allocator that never handed out an identifier is tidy and can allocate.
pub proof fn lemma_new_tidy()
    ensures
        (AllocatorModel { next_id: 1, free_ids: Seq::empty() }).tidy(),
        (AllocatorModel { next_id: 1, free_ids: Seq::empty() }).can_allocate(),
{
}

/// What `allocate` hands out is not in use, and afterwards it is in use next to
/// everything that was in use before; a tidy allocator stays tidy.
pub proof fn lemma_allocate_fresh(m: AllocatorModel)
    requires
        m.tidy(),
        m.can_allocate(),
    ensures
        !m.live().contains(m.allocated_value()),
        1 <= m.allocated_value(),
        m.after_allocate().tidy(),
        m.after_allocate().live() == m.live().insert(m.allocated_value()),
{
    let a = m.after_allocate();
    let v = m.allocated_value();
    if m.free_ids.len() > 0 {
        let last = m.free_ids.len() - 1;
        assert(m.free_values().contains(v));
        assert forall|x: u32| a.live().contains(x) <==> m.live().insert(v).contains(x) by {
            if x == v {
                if a.free_values().contains(x) {
                    let i = choose|i: int| 0 <= i < a.free_ids.len() && a.free_ids[i].value() == x;
                    assert(m.free_ids[i].value() == m.free_ids[last].value());
                }
            } else {
                if m.free_values().contains(x) {
                    let i = choose|i: int| 0 <= i < m.free_ids.len() && m.free_ids[i].value() == x;
                    assert(a.free_ids[i] == m.free_ids[i]);
                }
                if a.free_values().contains(x) {
                    let i = choose|i: int| 0 <= i < a.free_ids.len() && a.free_ids[i].value() == x;
                    assert(a.free_ids[i] == m.free_ids[i]);
                }
            }
        }
        assert(a.live() =~= m.live().insert(v));
    } else {
        assert forall|x: u32| a.live().contains(x) <==> m.live().insert(v).contains(x) by {
            assert(!a.free_values().contains(x));
            assert(!m.free_values().contains(x));
        }
        assert(a.live() =~= m.live().insert(v));
    }
}

/// Giving back an identifier that is in use keeps the allocator tidy, and the
/// identifier is no longer in use.
pub proof fn lemma_deallocate_live(m: AllocatorModel, id: ObjectId)
    requires
        m.tidy(),
        m.live().contains(id.value()),
    ensures
        m.after_deallocate(id).tidy(),
        m.after_deallocate(id).live() == m.live().remove(id.value()),
        m.after_deallocate(id).allocated_value() == id.value(),
{
    let a = m.after_deallocate(id);
    assert forall|i: int, j: int|
        0 <= i < j < a.free_ids.len() implies a.free_ids[i].value() != a.free_ids[j].value() by {
        if j == m.free_ids.len() {
            assert(!m.free_values().contains(id.value()));
            assert(a.free_ids[i] == m.free_ids[i]);
        }
    }
    assert forall|x: u32| a.live().contains(x) <==> m.live().remove(id.value()).contains(x) by {
        if a.free_values().contains(x) && x != id.value() {
            let i = choose|i: int| 0 <= i < a.free_ids.len() && a.free_ids[i].value() == x;
            assert(a.free_ids[i] == m.free_ids[i]);
        }
        if m.free_values().contains(x) {
            let i = choose|i: int| 0 <= i < m.free_ids.len() && m.free_ids[i].value() == x;
            assert(a.free_ids[i] == m.free_ids[i]);
        }
        if x == id.value() {
            assert(a.free_ids[a.free_ids.len() - 1] == id);
        }
    }
    assert(a.live() =~= m.live().remove(id.value()));
}

} // verus!
