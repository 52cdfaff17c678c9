pub mod ui;

use super::object_id::ObjectId;
use super::object_id_allocator::{AllocatorModel, ObjectIdAllocator};
use super::storage::controller_storage::{ControllerStorage, ControllersModel};
use super::storage::event_receiver_storage::{EventReceiverStorage, EventReceiversModel};
use super::storage::hierarchy_model::HierarchyModel;
use super::storage::hierarchy_storage::HierarchyStorage;
use vstd::prelude::*;

verus! {

/// The controllers after those of `ids[k..]` are detached, the last one first.
pub open spec fn controllers_detached<C>(m: ControllersModel<C>, ids: Seq<ObjectId>, k: int) -> ControllersModel<C>
    decreases ids.len() - k,
{
    if k < 0 || k >= ids.len() {
        m
    } else {
        controllers_detached(m, ids, k + 1).after_detach(ids[k].value())
    }
}

/// The controllers given back while those of `ids[k..]` are detached, the
/// last one first, each with its object.
pub open spec fn detached_controllers<C>(m: ControllersModel<C>, ids: Seq<ObjectId>, k: int) -> Seq<(ObjectId, C)>
    decreases ids.len() - k,
{
    if k < 0 || k >= ids.len() {
        Seq::empty()
    } else {
        let before = detached_controllers(m, ids, k + 1);
        match controllers_detached(m, ids, k + 1).controller_of(ids[k].value()) {
            Some(c) => before.push((ids[k], c)),
            None => before,
        }
    }
}

/// The event receivers after the objects `ids[k..]` stop listening, the last
/// one first.
pub open spec fn events_forgotten(m: EventReceiversModel, ids: Seq<ObjectId>, k: int) -> EventReceiversModel
    decreases ids.len() - k,
{
    if k < 0 || k >= ids.len() {
        m
    } else {
        events_forgotten(m, ids, k + 1).after_unlisten_all(ids[k].value())
    }
}

/// What removing the tree of `o` does: nothing when `o` is not in the
/// hierarchy; else the tree is cut out of the hierarchy, its objects lose
/// their controllers (given back in `detached`, the last descendant first)
/// and stop listening to events, and the identifier of `o` is given back to
/// the allocator once for each object removed.
pub open spec fn tree_removed<C>(
    h0: HierarchyModel,
    h1: HierarchyModel,
    e0: EventReceiversModel,
    e1: EventReceiversModel,
    c0: ControllersModel<C>,
    c1: ControllersModel<C>,
    a0: AllocatorModel,
    a1: AllocatorModel,
    o: ObjectId,
    detached: Seq<(ObjectId, C)>,
) -> bool {
    if !h0.contains_object(o) {
        &&& h1 == h0
        &&& e1 == e0
        &&& c1 == c0
        &&& a1 == a0
        &&& detached.len() == 0
    } else {
        let removed = h0.shape.objects.subrange(h0.pos_of(o), h0.pos_of(o) + h0.count_of(o));
        &&& h1 == h0.remove(o)
        &&& c1 == controllers_detached(c0, removed, 0)
        &&& detached == detached_controllers(c0, removed, 0)
        &&& e1 == events_forgotten(e0, removed, 0)
        &&& a1 == (AllocatorModel {
            next_id: a0.next_id,
            free_ids: a0.free_ids + Seq::new(removed.len(), |i: int| o),
        })
    }
}

/// Removes an object and its descendants from the scene: detaches their
/// controllers (the last descendant first) and gives them back, with their
/// objects, so that their owner can call them; makes the objects stop
/// listening to events; gives the removed object's identifier back to the
/// allocator once for each object removed; and cuts the objects out of the
/// hierarchy. An object that is not in the hierarchy is left alone, and
/// nothing changes.
pub fn remove_object_tree<C>(
    hierarchy: &mut HierarchyStorage,
    events: &mut EventReceiverStorage,
    controllers: &mut ControllerStorage<C>,
    allocator: &mut ObjectIdAllocator,
    object_id: ObjectId,
) -> (detached: Vec<(ObjectId, C)>)
    requires
        old(hierarchy)@.wf(),
        old(events).wf(),
        old(controllers).wf(),
    ensures
        final(hierarchy)@.wf(),
        final(events).wf(),
        final(controllers).wf(),
        tree_removed(
            old(hierarchy)@,
            final(hierarchy)@,
            old(events)@,
            final(events)@,
            old(controllers)@,
            final(controllers)@,
            old(allocator)@,
            final(allocator)@,
            object_id,
            detached@,
        ),
{
    if !hierarchy.contains(object_id) {
        return Vec::new();
    }
    let ghost h = hierarchy@;
    let ghost m0 = controllers@;
    let ghost e0 = events@;
    let ghost a0 = allocator@;
    let mut removed: Vec<ObjectId> = Vec::new();
    {
        let tree = hierarchy.object_and_children(object_id);
        let mut i: usize = 0;
        while i < tree.len()
            invariant
                0 <= i <= tree@.len(),
                removed@ == tree@.take(i as int),
            decreases tree@.len() - i,
        {
            removed.push(tree[i]);
            proof {
                assert(removed@ =~= tree@.take(i as int + 1));
            }
            i = i + 1;
        }
        proof {
            assert(removed@ =~= tree@);
        }
    }
    let ghost ids = removed@;
    let mut detached: Vec<(ObjectId, C)> = Vec::new();
    let mut k: usize = removed.len();
    while k > 0
        invariant
            0 <= k <= ids.len(),
            removed@ == ids,
            controllers.wf(),
            controllers@ == controllers_detached(m0, ids, k as int),
            detached@ == detached_controllers(m0, ids, k as int),
        decreases k,
    {
        k = k - 1;
        let id = removed[k];
        match controllers.detach(id) {
            Some(c) => detached.push((id, c)),
            None => {},
        }
    }
    let mut k: usize = removed.len();
    while k > 0
        invariant
            0 <= k <= ids.len(),
            removed@ == ids,
            events.wf(),
            events@ == events_forgotten(e0, ids, k as int),
            allocator@.next_id == a0.next_id,
            allocator@.free_ids == a0.free_ids + Seq::new((ids.len() - k) as nat, |i: int| object_id),
        decreases k,
    {
        k = k - 1;
        events.unlisten_all(removed[k]);
        allocator.deallocate(object_id);
        proof {
            assert(allocator@.free_ids =~= a0.free_ids + Seq::new((ids.len() - k) as nat, |i: int| object_id));
        }
    }
    hierarchy.remove(object_id);
    proof {
        assert(a0.free_ids + Seq::new(ids.len(), |i: int| object_id) =~= allocator@.free_ids);
    }
    detached
}

} // verus!
