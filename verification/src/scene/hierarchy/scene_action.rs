use super::object_id::ObjectId;
use super::object_id_allocator::ObjectIdAllocator;
use super::scene::{remove_object_tree, tree_removed};
use super::storage::controller_storage::{ControllerStorage, ControllersModel};
use super::storage::event_receiver_storage::{id_values, sorted_ids, EventReceiverStorage};
use super::storage::hierarchy_storage::HierarchyStorage;
use vstd::prelude::*;

verus! {

/// A change to the scene that its objects' controllers asked for, applied
/// once the controllers have run.
pub enum SceneAction<C, P> {
    RemoveObject { object_id: ObjectId },
    TriggerOnActive { object_id: ObjectId },
    TriggerOnInactive { object_id: ObjectId },
    AttachController { object_id: ObjectId, controller: C },
    DetachController { object_id: ObjectId },
    ListenOnUpdate { object_id: ObjectId },
    UnlistenOnUpdate { object_id: ObjectId },
    ListenOnLateUpdate { object_id: ObjectId },
    UnlistenOnLateUpdate { object_id: ObjectId },
    ListenEvent { event: String, object_id: ObjectId },
    UnlistenEvent { event: String, object_id: ObjectId },
    UnlistenEventAll { object_id: ObjectId },
    EmitEvent { event: String, param: P },
}

/// A call on controllers that an action is owed; the owner makes it, and the
/// controllers may ask for more actions while it runs.
pub enum ControllerCall<C, P> {
    /// `on_ready` of the controller just attached to the object.
    OnReady { object_id: ObjectId },
    /// `on_destroy` of a controller that left the object.
    OnDestroy { object_id: ObjectId, controller: C },
    OnActive { object_id: ObjectId },
    OnInactive { object_id: ObjectId },
    /// `on_event` of the controller of each object, in order.
    OnEvent { event: String, param: P, object_ids: Vec<ObjectId> },
}

/// The `on_destroy` calls for the controllers given back, in order.
pub open spec fn destroy_calls<C, P>(detached: Seq<(ObjectId, C)>) -> Seq<ControllerCall<C, P>> {
    Seq::new(
        detached.len(),
        |k: int| ControllerCall::OnDestroy { object_id: detached[k].0, controller: detached[k].1 },
    )
}

/// The call a trigger is owed: one, when the object has a controller.
pub open spec fn trigger_calls<C, P>(c: ControllersModel<C>, object_id: ObjectId, active: bool) -> Seq<ControllerCall<C, P>> {
    if c.controllers.contains_key(object_id.value()) {
        if active {
            seq![ControllerCall::OnActive { object_id }]
        } else {
            seq![ControllerCall::OnInactive { object_id }]
        }
    } else {
        Seq::empty()
    }
}

/// A trigger owes exactly one call when the object has a controller and
/// none otherwise: `on_active` for the object when it became active,
/// `on_inactive` when it became inactive; the two triggers owe the same
/// number of calls.
pub proof fn lemma_trigger_calls<C, P>(c: ControllersModel<C>, object_id: ObjectId)
    ensures
        trigger_calls::<C, P>(c, object_id, true).len() == trigger_calls::<C, P>(c, object_id, false).len(),
        c.controllers.contains_key(object_id.value()) ==> {
            &&& trigger_calls::<C, P>(c, object_id, true) =~= seq![ControllerCall::OnActive { object_id }]
            &&& trigger_calls::<C, P>(c, object_id, false) =~= seq![ControllerCall::OnInactive { object_id }]
        },
        !c.controllers.contains_key(object_id.value()) ==> trigger_calls::<C, P>(c, object_id, true).len() == 0,
{
}

/// The calls that attaching a controller is owed: `on_destroy` of the one it
/// replaces, if any, then `on_ready` of the new one.
pub open spec fn attach_calls<C, P>(c: ControllersModel<C>, object_id: ObjectId) -> Seq<ControllerCall<C, P>> {
    match c.controller_of(object_id.value()) {
        Some(old) => seq![
            ControllerCall::OnDestroy { object_id, controller: old },
            ControllerCall::OnReady { object_id },
        ],
        None => seq![ControllerCall::OnReady { object_id }],
    }
}

/// The calls that detaching a controller is owed: `on_destroy`, if the
/// object had one.
pub open spec fn detach_calls<C, P>(c: ControllersModel<C>, object_id: ObjectId) -> Seq<ControllerCall<C, P>> {
    match c.controller_of(object_id.value()) {
        Some(old) => seq![ControllerCall::OnDestroy { object_id, controller: old }],
        None => Seq::empty(),
    }
}

/// Applies one action to the scene's storages, and gives back the controller
/// calls it is owed, in the order they are made.
#[verifier::rlimit(30)]
pub fn apply_scene_action<C, P>(
    hierarchy: &mut HierarchyStorage,
    events: &mut EventReceiverStorage,
    controllers: &mut ControllerStorage<C>,
    allocator: &mut ObjectIdAllocator,
    action: SceneAction<C, P>,
) -> (calls: Vec<ControllerCall<C, P>>)
    requires
        old(hierarchy)@.wf(),
        old(events).wf(),
        old(controllers).wf(),
    ensures
        final(hierarchy)@.wf(),
        final(events).wf(),
        final(controllers).wf(),
        match action {
            SceneAction::RemoveObject { object_id } => exists|detached: Seq<(ObjectId, C)>|
                tree_removed(
                    old(hierarchy)@,
                    final(hierarchy)@,
                    old(events)@,
                    final(events)@,
                    old(controllers)@,
                    final(controllers)@,
                    old(allocator)@,
                    final(allocator)@,
                    object_id,
                    detached,
                ) && calls@ == destroy_calls::<C, P>(detached),
            SceneAction::EmitEvent { event, param } => {
                &&& final(hierarchy)@ == old(hierarchy)@
                &&& final(events)@ == old(events)@
                &&& final(controllers)@ == old(controllers)@
                &&& final(allocator)@ == old(allocator)@
                &&& calls@.len() == 1
                &&& calls@[0] matches ControllerCall::OnEvent { event: e, param: p, object_ids }
                &&& e == event
                &&& p == param
                &&& sorted_ids(object_ids@)
                &&& id_values(object_ids@) == old(events)@.receivers_of(event@).intersect(
                    old(controllers)@.controllers.dom(),
                )
            },
            _ => {
                &&& final(hierarchy)@ == old(hierarchy)@
                &&& final(allocator)@ == old(allocator)@
                &&& match action {
                    SceneAction::TriggerOnActive { object_id } => {
                        &&& final(events)@ == old(events)@
                        &&& final(controllers)@ == old(controllers)@
                        &&& calls@ == trigger_calls::<C, P>(old(controllers)@, object_id, true)
                        &&& calls@.len() == if old(controllers)@.controllers.contains_key(object_id.value()) {
                            1int
                        } else {
                            0int
                        }
                        &&& forall|k: int|
                            0 <= k < calls@.len() ==> (#[trigger] calls@[k]) == ControllerCall::<C, P>::OnActive {
                                object_id,
                            }
                    },
                    SceneAction::TriggerOnInactive { object_id } => {
                        &&& final(events)@ == old(events)@
                        &&& final(controllers)@ == old(controllers)@
                        &&& calls@ == trigger_calls::<C, P>(old(controllers)@, object_id, false)
                        &&& calls@.len() == if old(controllers)@.controllers.contains_key(object_id.value()) {
                            1int
                        } else {
                            0int
                        }
                        &&& forall|k: int|
                            0 <= k < calls@.len() ==> (#[trigger] calls@[k]) == ControllerCall::<C, P>::OnInactive {
                                object_id,
                            }
                    },
                    SceneAction::AttachController { object_id, controller } => {
                        &&& final(events)@ == old(events)@
                        &&& final(controllers)@ == old(controllers)@.after_attach(object_id.value(), controller)
                        &&& calls@ == attach_calls::<C, P>(old(controllers)@, object_id)
                    },
                    SceneAction::DetachController { object_id } => {
                        &&& final(events)@ == old(events)@.after_unlisten_all(object_id.value())
                        &&& final(controllers)@ == old(controllers)@.after_detach(object_id.value())
                        &&& calls@ == detach_calls::<C, P>(old(controllers)@, object_id)
                    },
                    SceneAction::ListenOnUpdate { object_id } => {
                        &&& final(events)@ == old(events)@
                        &&& final(controllers)@ == (ControllersModel {
                            on_update: if old(controllers)@.controllers.contains_key(object_id.value()) {
                                old(controllers)@.on_update.insert(object_id.value())
                            } else {
                                old(controllers)@.on_update
                            },
                            ..old(controllers)@
                        })
                        &&& calls@.len() == 0
                    },
                    SceneAction::UnlistenOnUpdate { object_id } => {
                        &&& final(events)@ == old(events)@
                        &&& final(controllers)@ == (ControllersModel {
                            on_update: old(controllers)@.on_update.remove(object_id.value()),
                            ..old(controllers)@
                        })
                        &&& calls@.len() == 0
                    },
                    SceneAction::ListenOnLateUpdate { object_id } => {
                        &&& final(events)@ == old(events)@
                        &&& final(controllers)@ == (ControllersModel {
                            on_late_update: if old(controllers)@.controllers.contains_key(object_id.value()) {
                                old(controllers)@.on_late_update.insert(object_id.value())
                            } else {
                                old(controllers)@.on_late_update
                            },
                            ..old(controllers)@
                        })
                        &&& calls@.len() == 0
                    },
                    SceneAction::UnlistenOnLateUpdate { object_id } => {
                        &&& final(events)@ == old(events)@
                        &&& final(controllers)@ == (ControllersModel {
                            on_late_update: old(controllers)@.on_late_update.remove(object_id.value()),
                            ..old(controllers)@
                        })
                        &&& calls@.len() == 0
                    },
                    SceneAction::ListenEvent { event, object_id } => {
                        &&& final(events)@ == old(events)@.after_listen(event@, object_id.value())
                        &&& final(controllers)@ == old(controllers)@
                        &&& calls@.len() == 0
                    },
                    SceneAction::UnlistenEvent { event, object_id } => {
                        &&& final(events)@ == old(events)@.after_unlisten(event@, object_id.value())
                        &&& final(controllers)@ == old(controllers)@
                        &&& calls@.len() == 0
                    },
                    SceneAction::UnlistenEventAll { object_id } => {
                        &&& final(events)@ == old(events)@.after_unlisten_all(object_id.value())
                        &&& final(controllers)@ == old(controllers)@
                        &&& calls@.len() == 0
                    },
                    _ => true,
                }
            },
        },
{
    let mut calls: Vec<ControllerCall<C, P>> = Vec::new();
    match action {
        SceneAction::RemoveObject { object_id } => {
            let mut detached = remove_object_tree(hierarchy, events, controllers, allocator, object_id);
            let ghost all = detached@;
            let ghost n = all.len();
            while detached.len() > 0
                invariant
                    n == all.len(),
                    detached@.len() <= n,
                    detached@ == all.skip(n - detached@.len()),
                    calls@ == destroy_calls::<C, P>(all.take(n - detached@.len())),
                decreases detached@.len(),
            {
                let ghost k = n - detached@.len();
                let (id, c) = detached.remove(0);
                proof {
                    assert(all[k] == (id, c));
                    assert(detached@ =~= all.skip(k + 1));
                }
                calls.push(ControllerCall::OnDestroy { object_id: id, controller: c });
                proof {
                    assert(calls@ =~= destroy_calls::<C, P>(all.take(k + 1)));
                }
            }
            proof {
                assert(all.take(n as int) =~= all);
            }
        },
        SceneAction::TriggerOnActive { object_id } => {
            if controllers.has_controller(object_id) {
                calls.push(ControllerCall::OnActive { object_id });
            }
            proof {
                assert(calls@ =~= trigger_calls::<C, P>(old(controllers)@, object_id, true));
            }
        },
        SceneAction::TriggerOnInactive { object_id } => {
            if controllers.has_controller(object_id) {
                calls.push(ControllerCall::OnInactive { object_id });
            }
            proof {
                assert(calls@ =~= trigger_calls::<C, P>(old(controllers)@, object_id, false));
            }
        },
        SceneAction::AttachController { object_id, controller } => {
            match controllers.attach(object_id, controller) {
                Some(old_controller) => {
                    calls.push(ControllerCall::OnDestroy { object_id, controller: old_controller });
                },
                None => {},
            }
            calls.push(ControllerCall::OnReady { object_id });
            proof {
                assert(calls@ =~= attach_calls::<C, P>(old(controllers)@, object_id));
            }
        },
        SceneAction::DetachController { object_id } => {
            events.unlisten_all(object_id);
            match controllers.detach(object_id) {
                Some(old_controller) => {
                    calls.push(ControllerCall::OnDestroy { object_id, controller: old_controller });
                },
                None => {},
            }
            proof {
                assert(calls@ =~= detach_calls::<C, P>(old(controllers)@, object_id));
            }
        },
        SceneAction::ListenOnUpdate { object_id } => controllers.listen_on_update(object_id),
        SceneAction::UnlistenOnUpdate { object_id } => controllers.unlisten_on_update(object_id),
        SceneAction::ListenOnLateUpdate { object_id } => controllers.listen_on_late_update(object_id),
        SceneAction::UnlistenOnLateUpdate { object_id } => controllers.unlisten_on_late_update(object_id),
        SceneAction::ListenEvent { event, object_id } => events.listen(event, object_id),
        SceneAction::UnlistenEvent { event, object_id } => events.unlisten(event, object_id),
        SceneAction::UnlistenEventAll { object_id } => events.unlisten_all(object_id),
        SceneAction::EmitEvent { event, param } => {
            let receivers = events.receivers(event.as_str());
            let object_ids = with_controllers(&receivers, controllers);
            calls.push(ControllerCall::OnEvent { event, param, object_ids });
        },
    }
    calls
}

/// The objects among `ids` that have a controller, in the same order.
fn with_controllers<C>(ids: &Vec<ObjectId>, controllers: &ControllerStorage<C>) -> (r: Vec<ObjectId>)
    requires
        sorted_ids(ids@),
    ensures
        sorted_ids(r@),
        id_values(r@) == id_values(ids@).intersect(controllers@.controllers.dom()),
{
    let mut r: Vec<ObjectId> = Vec::new();
    let mut i: usize = 0;
    while i < ids.len()
        invariant
            0 <= i <= ids@.len(),
            sorted_ids(ids@),
            sorted_ids(r@),
            forall|k: int| 0 <= k < r@.len() ==> exists|j: int| 0 <= j < i && (#[trigger] r@[k]).value() == ids@[j].value(),
            id_values(r@) == id_values(ids@.take(i as int)).intersect(controllers@.controllers.dom()),
        decreases ids@.len() - i,
    {
        let id = ids[i];
        let ghost before = r@;
        if controllers.has_controller(id) {
            proof {
                if before.len() > 0 {
                    let j = choose|j: int| 0 <= j < i && before[before.len() - 1].value() == ids@[j].value();
                    assert(ids@[j].value() < ids@[i as int].value());
                }
            }
            r.push(id);
            proof {
                assert forall|a: int, b: int| 0 <= a < b < r@.len() implies (#[trigger] r@[a]).value() < (#[trigger] r@[b]).value() by {
                    if b == r@.len() - 1 && a < before.len() {
                        let j = choose|j: int| 0 <= j < i && before[a].value() == ids@[j].value();
                        assert(ids@[j].value() < ids@[i as int].value());
                    }
                }
                assert forall|k: int| 0 <= k < r@.len() implies exists|j: int| 0 <= j < i + 1 && (#[trigger] r@[k]).value() == ids@[j].value() by {
                    if k < before.len() {
                        let j = choose|j: int| 0 <= j < i && before[k].value() == ids@[j].value();
                        assert(r@[k] == before[k]);
                    } else {
                        assert(r@[k] == ids@[i as int]);
                    }
                }
            }
        }
        proof {
            let t = ids@.take(i as int);
            let t1 = ids@.take(i as int + 1);
            assert forall|v: u32| id_values(r@).contains(v) <==> id_values(t1).intersect(controllers@.controllers.dom()).contains(v) by {
                if id_values(r@).contains(v) {
                    let k = choose|k: int| 0 <= k < r@.len() && (#[trigger] r@[k]).value() == v;
                    if k < before.len() {
                        assert(id_values(before).contains(v));
                        let m = choose|m: int| 0 <= m < t.len() && (#[trigger] t[m]).value() == v;
                        assert(t1[m] == t[m]);
                    } else {
                        assert(t1[i as int] == id);
                    }
                }
                if id_values(t1).intersect(controllers@.controllers.dom()).contains(v) {
                    let m = choose|m: int| 0 <= m < t1.len() && (#[trigger] t1[m]).value() == v;
                    if m < i {
                        assert(t[m] == t1[m]);
                        assert(id_values(t).contains(v));
                        assert(id_values(before).contains(v));
                        let k = choose|k: int| 0 <= k < before.len() && (#[trigger] before[k]).value() == v;
                        assert(r@[k] == before[k]);
                    } else {
                        assert(r@[r@.len() - 1] == id);
                    }
                }
            }
            assert(id_values(r@) =~= id_values(t1).intersect(controllers@.controllers.dom()));
        }
        i = i + 1;
    }
    proof {
        assert(ids@.take(ids@.len() as int) =~= ids@);
    }
    r
}

} // verus!
