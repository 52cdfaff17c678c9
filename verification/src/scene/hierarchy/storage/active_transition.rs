use super::super::object_id::ObjectId;
use super::hierarchy_storage::HierarchyStorage;
use vstd::prelude::*;

verus! {

/// A change of an object's active state that its controller is told about.
#[derive(Debug, Clone, Copy, PartialEq, Eq)]
pub enum ActiveTransition {
    TriggerOnActive { object_id: ObjectId },
    TriggerOnInactive { object_id: ObjectId },
}

/// The transition of the object `ids[k]`, if its flag went from `before[k]`
/// to `after[k]`.
pub open spec fn transition_at(
    ids: Seq<ObjectId>,
    before: Seq<bool>,
    after: Seq<bool>,
    k: int,
) -> Seq<ActiveTransition> {
    if !before[k] && after[k] {
        seq![ActiveTransition::TriggerOnActive { object_id: ids[k] }]
    } else if before[k] && !after[k] {
        seq![ActiveTransition::TriggerOnInactive { object_id: ids[k] }]
    } else {
        Seq::empty()
    }
}

/// The transitions of the first `n` objects, last object first.
pub open spec fn active_transitions(
    ids: Seq<ObjectId>,
    before: Seq<bool>,
    after: Seq<bool>,
    n: int,
) -> Seq<ActiveTransition>
    decreases n,
{
    if n <= 0 {
        Seq::empty()
    } else {
        transition_at(ids, before, after, n - 1) + active_transitions(ids, before, after, n - 1)
    }
}

impl HierarchyStorage {
    /// For an object in the hierarchy, does what `set_active_with_transitions`
    /// does; an object that is not there is left alone, and nothing is owed.
    pub fn set_active_if_present(&mut self, object_id: ObjectId, is_active: bool) -> (r: Vec<ActiveTransition>)
        requires
            old(self)@.wf(),
            old(self)@.contains_object(object_id) ==> 0 <= object_id.zero_based() < old(self)@.len(),
        ensures
            final(self)@.wf(),
            !old(self)@.contains_object(object_id) ==> final(self)@ == old(self)@ && r@.len() == 0,
            old(self)@.contains_object(object_id) ==> {
                &&& final(self)@ == old(self)@.set_active(object_id, is_active)
                &&& r@ == active_transitions(
                    old(self)@.shape.objects.subrange(
                        old(self)@.pos_of(object_id),
                        old(self)@.pos_of(object_id) + old(self)@.count_of(object_id),
                    ),
                    old(self)@.actives.subrange(
                        old(self)@.pos_of(object_id),
                        old(self)@.pos_of(object_id) + old(self)@.count_of(object_id),
                    ),
                    final(self)@.actives.subrange(
                        old(self)@.pos_of(object_id),
                        old(self)@.pos_of(object_id) + old(self)@.count_of(object_id),
                    ),
                    old(self)@.count_of(object_id),
                )
            },
    {
        if !self.contains(object_id) {
            return Vec::new();
        }
        self.set_active_with_transitions(object_id, is_active)
    }

    /// Sets the object's active flag as `set_active` does, and returns, for
    /// the object and each of its descendants whose active state changed, the
    /// controller call it is owed: the last descendant first, the object
    /// itself last.
    #[verifier::spinoff_prover]
    #[verifier::rlimit(30)]
    pub fn set_active_with_transitions(&mut self, object_id: ObjectId, is_active: bool) -> (r: Vec<
        ActiveTransition,
    >)
        requires
            old(self)@.wf(),
            old(self)@.contains_object(object_id),
            0 <= object_id.zero_based() < old(self)@.len(),
        ensures
            final(self)@ == old(self)@.set_active(object_id, is_active),
            final(self)@.wf(),
            r@ == active_transitions(
                old(self)@.shape.objects.subrange(
                    old(self)@.pos_of(object_id),
                    old(self)@.pos_of(object_id) + old(self)@.count_of(object_id),
                ),
                old(self)@.actives.subrange(
                    old(self)@.pos_of(object_id),
                    old(self)@.pos_of(object_id) + old(self)@.count_of(object_id),
                ),
                final(self)@.actives.subrange(
                    old(self)@.pos_of(object_id),
                    old(self)@.pos_of(object_id) + old(self)@.count_of(object_id),
                ),
                old(self)@.count_of(object_id),
            ),
    {
        let ghost m = old(self)@;
        let ghost p = m.pos_of(object_id);
        let ghost c = m.count_of(object_id);
        proof {
            assert(m.shape.cnt(p) == c);
        }
        let block = self.object_and_children(object_id);
        let mut ids: Vec<ObjectId> = Vec::new();
        let mut before: Vec<bool> = Vec::new();
        let mut k: usize = 0;
        while k < block.len()
            invariant
                self@ == m,
                m.wf(),
                block@ == m.shape.objects.subrange(p, p + c),
                0 <= p,
                0 <= c,
                p + c <= m.len(),
                0 <= k <= block@.len(),
                ids@ == block@.take(k as int),
                before@ == m.actives.subrange(p, p + k),
            decreases block@.len() - k,
        {
            let id = block[k];
            proof {
                assert(m.shape.objects[p + k] == id);
                assert(m.shape.has_slot(m.shape.objects[p + k]));
            }
            let flag = self.is_active(id);
            ids.push(id);
            before.push(flag);
            proof {
                assert(ids@ =~= block@.take(k as int + 1));
                assert(before@ =~= m.actives.subrange(p, p + k + 1));
            }
            k = k + 1;
        }
        proof {
            assert(ids@ =~= m.shape.objects.subrange(p, p + c));
        }
        self.set_active(object_id, is_active);
        let ghost n = self@;
        let mut after: Vec<bool> = Vec::new();
        let mut k: usize = 0;
        while k < ids.len()
            invariant
                self@ == n,
                n.wf(),
                n.shape == m.shape,
                ids@ == m.shape.objects.subrange(p, p + c),
                0 <= p,
                0 <= c,
                p + c <= m.len(),
                0 <= k <= ids@.len(),
                after@ == n.actives.subrange(p, p + k),
            decreases ids@.len() - k,
        {
            let id = ids[k];
            proof {
                assert(n.shape.objects[p + k] == id);
                assert(n.shape.has_slot(n.shape.objects[p + k]));
            }
            let flag = self.is_active(id);
            after.push(flag);
            proof {
                assert(after@ =~= n.actives.subrange(p, p + k + 1));
            }
            k = k + 1;
        }
        let mut r: Vec<ActiveTransition> = Vec::new();
        let mut k: usize = ids.len();
        while k > 0
            invariant
                0 <= k <= ids@.len(),
                ids@.len() == before@.len(),
                ids@.len() == after@.len(),
                active_transitions(ids@, before@, after@, ids@.len() as int) == r@ + active_transitions(
                    ids@,
                    before@,
                    after@,
                    k as int,
                ),
            decreases k,
        {
            let j = k - 1;
            let b = before[j];
            let a = after[j];
            let ghost r0 = r@;
            let ghost t = transition_at(ids@, before@, after@, j as int);
            let ghost rest = active_transitions(ids@, before@, after@, j as int);
            proof {
                assert(active_transitions(ids@, before@, after@, k as int) == t + rest);
            }
            if !b && a {
                r.push(ActiveTransition::TriggerOnActive { object_id: ids[j] });
            } else if b && !a {
                r.push(ActiveTransition::TriggerOnInactive { object_id: ids[j] });
            }
            proof {
                assert(r@ =~= r0 + t);
                assert(r0 + (t + rest) =~= (r0 + t) + rest);
            }
            k = j;
        }
        r
    }
}

} // verus!
