use super::super::object_id::ObjectId;
use std::collections::hash_map::Entry;
use std::collections::{HashMap, HashSet};
use vstd::prelude::*;
use vstd::std_specs::hash::spec_hash_keys_iter;
use vstd::std_specs::iter::IteratorSpec;

verus! {

/// The numbers of a list of identifiers.
pub open spec fn values_of(ids: Seq<ObjectId>) -> Set<u32> {
    Set::new(|v: u32| exists|k: int| 0 <= k < ids.len() && (#[trigger] ids[k]).value() == v)
}

/// No number occurs twice in the list.
pub open spec fn distinct_values(ids: Seq<ObjectId>) -> bool {
    forall|a: int, b: int| 0 <= a < b < ids.len() ==> (#[trigger] ids[a]).value() != (#[trigger] ids[b]).value()
}

/// The controllers attached to objects, by object number, and the objects
/// whose controllers are called on each update and on each late update.
pub struct ControllersModel<C> {
    pub controllers: Map<u32, C>,
    pub on_update: Set<u32>,
    pub on_late_update: Set<u32>,
}

impl<C> ControllersModel<C> {
    /// Only objects with a controller are hooked to the updates.
    pub open spec fn hooks_attached(self) -> bool {
        &&& forall|v: u32| self.on_update.contains(v) ==> self.controllers.contains_key(v)
        &&& forall|v: u32| self.on_late_update.contains(v) ==> self.controllers.contains_key(v)
    }

    /// After a controller is attached to object `v`: it replaces the one the
    /// object had, and the hooks stay as they were.
    pub open spec fn after_attach(self, v: u32, c: C) -> ControllersModel<C> {
        ControllersModel { controllers: self.controllers.insert(v, c), ..self }
    }

    /// After the controller of object `v` is detached: the object has no
    /// controller and no hooks.
    pub open spec fn after_detach(self, v: u32) -> ControllersModel<C> {
        ControllersModel {
            controllers: self.controllers.remove(v),
            on_update: self.on_update.remove(v),
            on_late_update: self.on_late_update.remove(v),
        }
    }

    /// The controller that a call on object `v` gives back.
    pub open spec fn controller_of(self, v: u32) -> Option<C> {
        if self.controllers.contains_key(v) {
            Some(self.controllers[v])
        } else {
            None
        }
    }
}


/// The controllers of a scene, each attached to one object (by its number),
/// and which of them are called on updates. The controllers are of any type;
/// calling them is left to the owner.
pub struct ControllerStorage<C> {
    controllers: HashMap<u32, C>,
    on_update: HashSet<u32>,
    on_late_update: HashSet<u32>,
}

impl<C> View for ControllerStorage<C> {
    type V = ControllersModel<C>;

    closed spec fn view(&self) -> ControllersModel<C> {
        ControllersModel {
            controllers: self.controllers@,
            on_update: self.on_update@,
            on_late_update: self.on_late_update@,
        }
    }
}

impl<C> ControllerStorage<C> {
    /// Only object numbers are keys, and only objects with a controller are
    /// hooked to the updates.
    pub closed spec fn wf(&self) -> bool {
        &&& !self.controllers@.dom().contains(0)
        &&& self.on_update@.subset_of(self.controllers@.dom())
        &&& self.on_late_update@.subset_of(self.controllers@.dom())
    }

    /// A well-formed storage hooks only objects with a controller to the
    /// updates.
    pub proof fn lemma_hooks_attached(&self)
        requires
            self.wf(),
        ensures
            self@.hooks_attached(),
    {
        assert forall|v: u32| self@.on_update.contains(v) implies self@.controllers.contains_key(v) by {
            assert(self.on_update@.contains(v));
        }
        assert forall|v: u32| self@.on_late_update.contains(v) implies self@.controllers.contains_key(v) by {
            assert(self.on_late_update@.contains(v));
        }
    }

    pub fn new() -> (r: ControllerStorage<C>)
        ensures
            r.wf(),
            r@.controllers == Map::<u32, C>::empty(),
            r@.on_update == Set::<u32>::empty(),
            r@.on_late_update == Set::<u32>::empty(),
    {
        ControllerStorage { controllers: HashMap::new(), on_update: HashSet::new(), on_late_update: HashSet::new() }
    }

    /// Whether the object has a controller.
    pub fn has_controller(&self, id: ObjectId) -> (r: bool)
        ensures
            r == self@.controllers.contains_key(id.value()),
    {
        broadcast use vstd::std_specs::hash::group_hash_axioms;

        self.controllers.contains_key(&id.get())
    }

    /// The controller of the object, to be called, if it has one.
    pub fn find_controller(&mut self, id: ObjectId) -> (r: Option<&mut C>)
        requires
            old(self).wf(),
        ensures
            r is Some <==> old(self)@.controllers.contains_key(id.value()),
            r matches Some(c) ==> *c == old(self)@.controllers[id.value()],
            final(self)@.on_update == old(self)@.on_update,
            final(self)@.on_late_update == old(self)@.on_late_update,
            final(self)@.controllers.dom() == old(self)@.controllers.dom(),
            forall|v: u32| v != id.value() ==> #[trigger] final(self)@.controllers.get(v) == old(self)@.controllers.get(v),
            final(self).wf(),
    {
        broadcast use vstd::std_specs::hash::group_hash_axioms;

        let v = id.get();
        match self.controllers.entry(v) {
            Entry::Occupied(entry) => {
                let c = entry.into_mut();
                Some(c)
            },
            Entry::Vacant(_) => None,
        }
    }
}

impl<C> ControllerStorage<C> {
    /// Attaches the controller to the object, and gives back the controller
    /// it replaces, if the object had one. The object's hooks stay.
    pub fn attach(&mut self, id: ObjectId, controller: C) -> (r: Option<C>)
        requires
            old(self).wf(),
        ensures
            final(self).wf(),
            final(self)@ == old(self)@.after_attach(id.value(), controller),
            r == old(self)@.controller_of(id.value()),
    {
        broadcast use vstd::std_specs::hash::group_hash_axioms;

        let r = self.controllers.insert(id.get(), controller);
        proof {
            assert(self@.controllers =~= old(self)@.controllers.insert(id.value(), controller));
            assert forall|w: u32| #[trigger] self@.controllers.contains_key(w) implies w != 0 by {
                assert(w == id.value() || old(self)@.controllers.contains_key(w));
            }
            assert forall|w: u32| #[trigger] self@.on_update.contains(w) implies self@.controllers.contains_key(w) by {
                assert(old(self)@.controllers.contains_key(w));
            }
            assert forall|w: u32| #[trigger] self@.on_late_update.contains(w) implies self@.controllers.contains_key(w) by {
                assert(old(self)@.controllers.contains_key(w));
            }
        }
        r
    }

    /// Detaches the object's controller, if it has one, and unhooks the
    /// object from the updates; gives back the controller.
    pub fn detach(&mut self, id: ObjectId) -> (r: Option<C>)
        requires
            old(self).wf(),
        ensures
            final(self).wf(),
            final(self)@ == old(self)@.after_detach(id.value()),
            r == old(self)@.controller_of(id.value()),
    {
        broadcast use vstd::std_specs::hash::group_hash_axioms;

        let v = id.get();
        self.on_update.remove(&v);
        self.on_late_update.remove(&v);
        let r = self.controllers.remove(&v);
        proof {
            assert(self@.controllers =~= old(self)@.controllers.remove(v));
            assert(self@.on_update =~= old(self)@.on_update.remove(v));
            assert(self@.on_late_update =~= old(self)@.on_late_update.remove(v));
        }
        r
    }

    /// Hooks the object to the updates, if it has a controller.
    pub fn listen_on_update(&mut self, id: ObjectId)
        requires
            old(self).wf(),
        ensures
            final(self).wf(),
            final(self)@ == (ControllersModel {
                on_update: if old(self)@.controllers.contains_key(id.value()) {
                    old(self)@.on_update.insert(id.value())
                } else {
                    old(self)@.on_update
                },
                ..old(self)@
            }),
    {
        broadcast use vstd::std_specs::hash::group_hash_axioms;

        let v = id.get();
        if self.controllers.contains_key(&v) {
            self.on_update.insert(v);
            assert(self@.controllers.contains_key(v));
            assert(self@.on_update == old(self)@.on_update.insert(v));
            assert(forall|w: u32| #[trigger] self@.on_update.contains(w) ==> self@.controllers.contains_key(w));
            assert(forall|w: u32| #[trigger] self@.controllers.contains_key(w) ==> w != 0);
        }
    }

    /// Unhooks the object from the updates.
    pub fn unlisten_on_update(&mut self, id: ObjectId)
        requires
            old(self).wf(),
        ensures
            final(self).wf(),
            final(self)@ == (ControllersModel { on_update: old(self)@.on_update.remove(id.value()), ..old(self)@ }),
    {
        broadcast use vstd::std_specs::hash::group_hash_axioms;

        let v = id.get();
        self.on_update.remove(&v);
    }

    /// Hooks the object to the late updates, if it has a controller.
    pub fn listen_on_late_update(&mut self, id: ObjectId)
        requires
            old(self).wf(),
        ensures
            final(self).wf(),
            final(self)@ == (ControllersModel {
                on_late_update: if old(self)@.controllers.contains_key(id.value()) {
                    old(self)@.on_late_update.insert(id.value())
                } else {
                    old(self)@.on_late_update
                },
                ..old(self)@
            }),
    {
        broadcast use vstd::std_specs::hash::group_hash_axioms;

        let v = id.get();
        if self.controllers.contains_key(&v) {
            self.on_late_update.insert(v);
            assert(self@.controllers.contains_key(v));
            assert(self@.on_late_update == old(self)@.on_late_update.insert(v));
            assert(forall|w: u32| #[trigger] self@.on_late_update.contains(w) ==> self@.controllers.contains_key(w));
            assert(forall|w: u32| #[trigger] self@.controllers.contains_key(w) ==> w != 0);
        }
    }

    /// Unhooks the object from the late updates.
    pub fn unlisten_on_late_update(&mut self, id: ObjectId)
        requires
            old(self).wf(),
        ensures
            final(self).wf(),
            final(self)@ == (ControllersModel {
                on_late_update: old(self)@.on_late_update.remove(id.value()),
                ..old(self)@
            }),
    {
        broadcast use vstd::std_specs::hash::group_hash_axioms;

        let v = id.get();
        self.on_late_update.remove(&v);
    }

    /// The objects in a set of hooked object numbers, each once, in the order
    /// the set is walked (which depends on the hasher).
    fn hooked_ids(hooked: &HashSet<u32>, Ghost(controllers): Ghost<Map<u32, C>>) -> (r: Vec<ObjectId>)
        requires
            !controllers.dom().contains(0),
            hooked@.subset_of(controllers.dom()),
        ensures
            distinct_values(r@),
            values_of(r@) == hooked@,
    {
        broadcast use vstd::std_specs::hash::group_hash_axioms;

        let ghost s = IteratorSpec::remaining(&spec_hash_keys_iter(hooked)).unref();
        let mut r: Vec<ObjectId> = Vec::new();
        for v in it: hooked.iter()
            invariant
                !controllers.dom().contains(0),
                hooked@.subset_of(controllers.dom()),
                it.seq().unref() == s,
                s.to_set() == hooked@,
                s.no_duplicates(),
                r@.len() == it.index(),
                forall|k: int| 0 <= k < r@.len() ==> (#[trigger] r@[k]).value() == s[k],
        {
            proof {
                assert(s[it.index()] == *v);
                assert(s.to_set().contains(*v));
                assert(controllers.dom().contains(*v));
            }
            r.push(ObjectId::new(*v));
        }
        proof {
            assert(r@.len() == s.len());
            assert forall|a: int, b: int| 0 <= a < b < r@.len() implies (#[trigger] r@[a]).value() != (#[trigger] r@[b]).value() by {
                assert(r@[a].value() == s[a]);
                assert(r@[b].value() == s[b]);
            }
            assert forall|w: u32| values_of(r@).contains(w) <==> hooked@.contains(w) by {
                if values_of(r@).contains(w) {
                    let k = choose|k: int| 0 <= k < r@.len() && (#[trigger] r@[k]).value() == w;
                    assert(s[k] == w);
                    assert(s.to_set().contains(w));
                }
                if hooked@.contains(w) {
                    assert(s.to_set().contains(w));
                    let k = choose|k: int| 0 <= k < s.len() && s[k] == w;
                    assert(r@[k].value() == w);
                }
            }
            assert(values_of(r@) =~= hooked@);
        }
        r
    }

    /// The objects hooked to the updates, each once (in no particular order).
    pub fn on_update_ids(&self) -> (r: Vec<ObjectId>)
        requires
            self.wf(),
        ensures
            distinct_values(r@),
            values_of(r@) == self@.on_update,
    {
        proof {
            assert forall|w: u32| self.on_update@.contains(w) implies self.controllers@.dom().contains(w) by {
                assert(self@.on_update.contains(w));
            }
        }
        Self::hooked_ids(&self.on_update, Ghost(self.controllers@))
    }

    /// The objects hooked to the late updates, each once (in no particular
    /// order).
    pub fn on_late_update_ids(&self) -> (r: Vec<ObjectId>)
        requires
            self.wf(),
        ensures
            distinct_values(r@),
            values_of(r@) == self@.on_late_update,
    {
        proof {
            assert forall|w: u32| self.on_late_update@.contains(w) implies self.controllers@.dom().contains(w) by {
                assert(self@.on_late_update.contains(w));
            }
        }
        Self::hooked_ids(&self.on_late_update, Ghost(self.controllers@))
    }
}

/// Once an object's controller is detached, the object has no controller and
/// no call on updates reaches it; every other object keeps its controller and
/// hooks.
pub proof fn lemma_detach_forgets<C>(m: ControllersModel<C>, v: u32, w: u32)
    requires
        w != v,
    ensures
        m.after_detach(v).controller_of(v) is None,
        !m.after_detach(v).on_update.contains(v),
        !m.after_detach(v).on_late_update.contains(v),
        m.after_detach(v).controller_of(w) == m.controller_of(w),
        m.after_detach(v).on_update.contains(w) == m.on_update.contains(w),
        m.after_detach(v).on_late_update.contains(w) == m.on_late_update.contains(w),
{
}

} // verus!
