use super::super::object_id::ObjectId;
use vstd::prelude::*;

verus! {

/// The numbers held by a list of identifiers.
pub open spec fn id_values(ids: Seq<ObjectId>) -> Set<u32> {
    Set::new(|v: u32| exists|k: int| 0 <= k < ids.len() && (#[trigger] ids[k]).value() == v)
}

/// The identifiers are in strictly increasing order of their numbers.
pub open spec fn sorted_ids(ids: Seq<ObjectId>) -> bool {
    forall|a: int, b: int| 0 <= a < b < ids.len() ==> (#[trigger] ids[a]).value() < (#[trigger] ids[b]).value()
}

pub open spec fn strings(v: Seq<String>) -> Seq<Seq<char>> {
    v.map_values(|s: String| s@)
}

/// The index of the first occurrence of `e` in `s`, if any.
pub open spec fn first_index(s: Seq<Seq<char>>, e: Seq<char>) -> Option<int> {
    if exists|k: int| 0 <= k < s.len() && s[k] == e {
        Some(choose|k: int| 0 <= k < s.len() && s[k] == e && forall|j: int| 0 <= j < k ==> s[j] != e)
    } else {
        None
    }
}

/// `s` with the place `k` given the last element, and the last place dropped.
pub open spec fn swap_removed(s: Seq<Seq<char>>, k: int) -> Seq<Seq<char>> {
    s.update(k, s.last()).drop_last()
}

/// Who listens to which event, and which events each object listens to (in
/// the order it started listening; an event listened to twice is listed twice).
pub struct EventReceiversModel {
    pub receivers: Map<Seq<char>, Set<u32>>,
    pub events: Map<u32, Seq<Seq<char>>>,
}

impl EventReceiversModel {
    /// The receivers of an event (none when it was never listened to).
    pub open spec fn receivers_of(self, e: Seq<char>) -> Set<u32> {
        if self.receivers.contains_key(e) {
            self.receivers[e]
        } else {
            Set::empty()
        }
    }

    /// The events an object listens to.
    pub open spec fn events_of(self, v: u32) -> Seq<Seq<char>> {
        if self.events.contains_key(v) {
            self.events[v]
        } else {
            Seq::empty()
        }
    }

    /// After `listen(e, v)`.
    pub open spec fn after_listen(self, e: Seq<char>, v: u32) -> EventReceiversModel {
        EventReceiversModel {
            receivers: self.receivers.insert(e, self.receivers_of(e).insert(v)),
            events: self.events.insert(v, self.events_of(v).push(e)),
        }
    }

    /// After `unlisten(e, v)`: the object stops receiving the event, and the
    /// first listing of the event among the object's events is replaced by the
    /// last one.
    pub open spec fn after_unlisten(self, e: Seq<char>, v: u32) -> EventReceiversModel {
        EventReceiversModel {
            receivers: if self.receivers.contains_key(e) {
                self.receivers.insert(e, self.receivers[e].remove(v))
            } else {
                self.receivers
            },
            events: if self.events.contains_key(v) {
                match first_index(self.events[v], e) {
                    Some(k) => self.events.insert(v, swap_removed(self.events[v], k)),
                    None => self.events,
                }
            } else {
                self.events
            },
        }
    }

    /// After `unlisten_all(v)`: the object's events are forgotten and it stops
    /// receiving each of them.
    pub open spec fn after_unlisten_all(self, v: u32) -> EventReceiversModel {
        EventReceiversModel {
            receivers: Map::new(
                |e: Seq<char>| self.receivers.contains_key(e),
                |e: Seq<char>|
                    if self.events_of(v).contains(e) {
                        self.receivers[e].remove(v)
                    } else {
                        self.receivers[e]
                    },
            ),
            events: self.events.remove(v),
        }
    }

    /// Every object that receives an event lists that event.
    pub open spec fn consistent(self) -> bool {
        forall|e: Seq<char>, v: u32|
            #![trigger self.receivers_of(e).contains(v)]
            self.receivers_of(e).contains(v) ==> self.events_of(v).contains(e)
    }
}

impl EventReceiversModel {
    /// After `listen(e, v)` the object receives the event, and lists it last.
    pub proof fn lemma_listen_receives(self, e: Seq<char>, v: u32)
        ensures
            self.after_listen(e, v).receivers_of(e).contains(v),
            self.after_listen(e, v).events_of(v).last() == e,
    {
    }

    /// After `unlisten(e, v)` the object no longer receives the event, and
    /// every other receiver of every event is unchanged.
    pub proof fn lemma_unlisten_stops(self, e: Seq<char>, v: u32, e2: Seq<char>, w: u32)
        requires
            e2 != e || w != v,
        ensures
            !self.after_unlisten(e, v).receivers_of(e).contains(v),
            self.after_unlisten(e, v).receivers_of(e2).contains(w) == self.receivers_of(e2).contains(w),
    {
    }

    /// `listen` keeps every receiver listed among its object's events.
    pub proof fn lemma_listen_consistent(self, e: Seq<char>, v: u32)
        requires
            self.consistent(),
        ensures
            self.after_listen(e, v).consistent(),
    {
        let n = self.after_listen(e, v);
        assert forall|e2: Seq<char>, w: u32| #[trigger] n.receivers_of(e2).contains(w) implies n.events_of(w).contains(e2) by {
            if w == v {
                if e2 == e {
                    assert(n.events_of(w)[n.events_of(w).len() - 1] == e2);
                } else {
                    assert(self.receivers_of(e2).contains(w));
                    let k = choose|k: int| 0 <= k < self.events_of(w).len() && self.events_of(w)[k] == e2;
                    assert(n.events_of(w)[k] == e2);
                }
            } else {
                assert(self.receivers_of(e2).contains(w));
            }
        }
    }

    /// `unlisten` keeps every receiver listed among its object's events.
    pub proof fn lemma_unlisten_consistent(self, e: Seq<char>, v: u32)
        requires
            self.consistent(),
        ensures
            self.after_unlisten(e, v).consistent(),
    {
        let n = self.after_unlisten(e, v);
        assert forall|e2: Seq<char>, w: u32| #[trigger] n.receivers_of(e2).contains(w) implies n.events_of(w).contains(e2) by {
            assert(self.receivers_of(e2).contains(w));
            if w == v && self.events.contains_key(v) {
                lemma_first_index_found(self.events[v], e);
                match first_index(self.events[v], e) {
                    Some(k) => {
                        lemma_swap_removed_keeps(self.events[v], k, e2);
                    },
                    None => {},
                }
            }
        }
    }

    /// `unlisten_all` keeps every receiver listed among its object's events.
    pub proof fn lemma_unlisten_all_consistent(self, v: u32)
        requires
            self.consistent(),
        ensures
            self.after_unlisten_all(v).consistent(),
    {
        let n = self.after_unlisten_all(v);
        assert forall|e2: Seq<char>, w: u32| #[trigger] n.receivers_of(e2).contains(w) implies n.events_of(w).contains(e2) by {
            assert(self.receivers_of(e2).contains(w));
        }
    }

    /// Once an object stops listening to everything, no event reaches it.
    pub proof fn lemma_unlisten_all_silences(self, v: u32, e: Seq<char>)
        requires
            self.consistent(),
        ensures
            !self.after_unlisten_all(v).receivers_of(e).contains(v),
            self.after_unlisten_all(v).events_of(v) == Seq::<Seq<char>>::empty(),
    {
        if self.receivers_of(e).contains(v) {
            assert(self.events_of(v).contains(e));
        }
    }
}

/// Swap-removing one place keeps every element that is not the one removed.
proof fn lemma_swap_removed_keeps(s: Seq<Seq<char>>, k: int, x: Seq<char>)
    requires
        0 <= k < s.len(),
        s.contains(x),
        s[k] != x,
    ensures
        swap_removed(s, k).contains(x),
{
    let r = swap_removed(s, k);
    let k0 = choose|j: int| 0 <= j < s.len() && s[j] == x;
    if k0 < s.len() - 1 {
        assert(r[k0] == x);
    } else {
        assert(r[k] == x);
    }
}

/// `first_index` names a place holding the element, when there is one.
proof fn lemma_first_index_found(s: Seq<Seq<char>>, e: Seq<char>)
    ensures
        first_index(s, e) matches Some(k) ==> 0 <= k < s.len() && s[k] == e,
        first_index(s, e) is None ==> !s.contains(e),
{
    if exists|k: int| 0 <= k < s.len() && s[k] == e {
        let k0 = choose|k: int| 0 <= k < s.len() && s[k] == e;
        lemma_least_index(s, e, k0);
    }
}

/// Among the places holding `e` there is a first.
proof fn lemma_least_index(s: Seq<Seq<char>>, e: Seq<char>, k: int)
    requires
        0 <= k < s.len(),
        s[k] == e,
    ensures
        exists|m: int| 0 <= m < s.len() && s[m] == e && forall|j: int| 0 <= j < m ==> s[j] != e,
    decreases k,
{
    if exists|j: int| 0 <= j < k && s[j] == e {
        let j = choose|j: int| 0 <= j < k && s[j] == e;
        lemma_least_index(s, e, j);
    } else {
        assert(forall|j: int| 0 <= j < k ==> s[j] != e);
    }
}

/// The event and object registrations of a scene, each object's receivers kept
/// in increasing order of identifier.
pub struct EventReceiverStorage {
    event_keys: Vec<String>,
    event_ids: Vec<Vec<ObjectId>>,
    object_keys: Vec<ObjectId>,
    object_events: Vec<Vec<String>>,
}

impl View for EventReceiverStorage {
    type V = EventReceiversModel;

    closed spec fn view(&self) -> EventReceiversModel {
        EventReceiversModel {
            receivers: Map::new(
                |e: Seq<char>| exists|i: int| 0 <= i < self.event_keys@.len() && (#[trigger] self.event_keys@[i])@ == e,
                |e: Seq<char>| id_values(self.event_ids@[self.event_index(e)]@),
            ),
            events: Map::new(
                |v: u32| exists|j: int| 0 <= j < self.object_keys@.len() && (#[trigger] self.object_keys@[j]).value() == v,
                |v: u32| strings(self.object_events@[self.object_index(v)]@),
            ),
        }
    }
}

impl EventReceiverStorage {
    spec fn event_index(&self, e: Seq<char>) -> int {
        choose|i: int| 0 <= i < self.event_keys@.len() && (#[trigger] self.event_keys@[i])@ == e
    }

    spec fn object_index(&self, v: u32) -> int {
        choose|j: int| 0 <= j < self.object_keys@.len() && (#[trigger] self.object_keys@[j]).value() == v
    }

    /// Keys are unique, the lists run in parallel and receivers are sorted.
    pub closed spec fn wf(&self) -> bool {
        &&& self.event_keys@.len() == self.event_ids@.len()
        &&& self.object_keys@.len() == self.object_events@.len()
        &&& forall|a: int, b: int|
            0 <= a < b < self.event_keys@.len() ==> (#[trigger] self.event_keys@[a])@ != (
            #[trigger] self.event_keys@[b])@
        &&& forall|a: int, b: int|
            0 <= a < b < self.object_keys@.len() ==> (#[trigger] self.object_keys@[a]).value() != (
            #[trigger] self.object_keys@[b]).value()
        &&& forall|i: int| 0 <= i < self.event_ids@.len() ==> sorted_ids(#[trigger] self.event_ids@[i]@)
    }

    proof fn lemma_event_index(&self, i: int)
        requires
            self.wf(),
            0 <= i < self.event_keys@.len(),
        ensures
            self.event_index(self.event_keys@[i]@) == i,
            self@.receivers.contains_key(self.event_keys@[i]@),
            self@.receivers[self.event_keys@[i]@] == id_values(self.event_ids@[i]@),
    {
        let e = self.event_keys@[i]@;
        assert(exists|i2: int| 0 <= i2 < self.event_keys@.len() && (#[trigger] self.event_keys@[i2])@ == e);
        let k = self.event_index(e);
        if k != i {
            if k < i {
                assert(self.event_keys@[k]@ != self.event_keys@[i]@);
            } else {
                assert(self.event_keys@[i]@ != self.event_keys@[k]@);
            }
        }
    }

    proof fn lemma_object_index(&self, j: int)
        requires
            self.wf(),
            0 <= j < self.object_keys@.len(),
        ensures
            self.object_index(self.object_keys@[j].value()) == j,
            self@.events.contains_key(self.object_keys@[j].value()),
            self@.events[self.object_keys@[j].value()] == strings(self.object_events@[j]@),
    {
        let v = self.object_keys@[j].value();
        assert(exists|j2: int| 0 <= j2 < self.object_keys@.len() && (#[trigger] self.object_keys@[j2]).value() == v);
        let k = self.object_index(v);
        if k != j {
            if k < j {
                assert(self.object_keys@[k].value() != self.object_keys@[j].value());
            } else {
                assert(self.object_keys@[j].value() != self.object_keys@[k].value());
            }
        }
    }

    pub fn new() -> (r: EventReceiverStorage)
        ensures
            r.wf(),
            r@.receivers == Map::<Seq<char>, Set<u32>>::empty(),
            r@.events == Map::<u32, Seq<Seq<char>>>::empty(),
            r@.consistent(),
    {
        let r = EventReceiverStorage {
            event_keys: Vec::new(),
            event_ids: Vec::new(),
            object_keys: Vec::new(),
            object_events: Vec::new(),
        };
        assert(r@.receivers =~= Map::<Seq<char>, Set<u32>>::empty());
        assert(r@.events =~= Map::<u32, Seq<Seq<char>>>::empty());
        r
    }

    /// The place of the event among the keys, if it is one.
    fn find_event(&self, event: &String) -> (r: Option<usize>)
        requires
            self.wf(),
        ensures
            r matches Some(i) ==> i < self.event_keys@.len() && self.event_keys@[i as int]@ == event@,
            r is None ==> !self@.receivers.contains_key(event@),
    {
        let mut i: usize = 0;
        while i < self.event_keys.len()
            invariant
                0 <= i <= self.event_keys@.len(),
                forall|k: int| 0 <= k < i ==> (#[trigger] self.event_keys@[k])@ != event@,
            decreases self.event_keys@.len() - i,
        {
            if self.event_keys[i] == *event {
                return Some(i);
            }
            i = i + 1;
        }
        None
    }

    /// The place of the object among the keys, if it is one.
    fn find_object(&self, object_id: ObjectId) -> (r: Option<usize>)
        requires
            self.wf(),
        ensures
            r matches Some(j) ==> j < self.object_keys@.len() && self.object_keys@[j as int].value()
                == object_id.value(),
            r is None ==> !self@.events.contains_key(object_id.value()),
    {
        let mut j: usize = 0;
        while j < self.object_keys.len()
            invariant
                0 <= j <= self.object_keys@.len(),
                forall|k: int| 0 <= k < j ==> (#[trigger] self.object_keys@[k]).value() != object_id.value(),
            decreases self.object_keys@.len() - j,
        {
            if self.object_keys[j].get() == object_id.get() {
                return Some(j);
            }
            j = j + 1;
        }
        None
    }
}

/// Adds an identifier to a sorted list, unless it is there.
#[verifier::spinoff_prover]
#[verifier::rlimit(30)]
fn insert_sorted(ids: &mut Vec<ObjectId>, object_id: ObjectId)
    requires
        sorted_ids(old(ids)@),
    ensures
        sorted_ids(final(ids)@),
        id_values(final(ids)@) == id_values(old(ids)@).insert(object_id.value()),
{
    let v = object_id.get();
    let mut p: usize = 0;
    while p < ids.len() && ids[p].get() < v
        invariant
            0 <= p <= ids@.len(),
            ids@ == old(ids)@,
            sorted_ids(ids@),
            forall|k: int| 0 <= k < p ==> (#[trigger] ids@[k]).value() < v,
        decreases ids@.len() - p,
    {
        p = p + 1;
    }
    if p < ids.len() && ids[p].get() == v {
        assert(id_values(ids@) =~= id_values(old(ids)@).insert(object_id.value()));
        return;
    }
    ids.insert(p, object_id);
    proof {
        let s = old(ids)@;
        let t = ids@;
        assert forall|a: int, b: int| 0 <= a < b < t.len() implies (#[trigger] t[a]).value() < (#[trigger] t[b]).value() by {
            if b < p {
                assert(t[a] == s[a] && t[b] == s[b]);
            } else if b == p {
                assert(t[a] == s[a]);
            } else if a < p {
                assert(t[a] == s[a] && t[b] == s[b - 1]);
                assert(s[b - 1].value() >= v);
            } else if a == p {
                assert(t[b] == s[b - 1]);
                assert(s[b - 1].value() >= v);
                if s[b - 1].value() == v {
                    if b - 1 > p {
                        assert(s[p as int].value() < s[b - 1].value());
                    }
                }
            } else {
                assert(t[a] == s[a - 1] && t[b] == s[b - 1]);
            }
        }
        assert forall|x: u32| id_values(t).contains(x) <==> id_values(s).insert(object_id.value()).contains(x) by {
            if id_values(s).contains(x) {
                let k = choose|k: int| 0 <= k < s.len() && (#[trigger] s[k]).value() == x;
                if k < p {
                    assert(t[k] == s[k]);
                } else {
                    assert(t[k + 1] == s[k]);
                }
            }
            if x == object_id.value() {
                assert(t[p as int] == object_id);
            }
            if id_values(t).contains(x) {
                let k = choose|k: int| 0 <= k < t.len() && (#[trigger] t[k]).value() == x;
                if k < p {
                    assert(t[k] == s[k]);
                } else if k > p {
                    assert(t[k] == s[k - 1]);
                }
            }
        }
        assert(id_values(t) =~= id_values(s).insert(object_id.value()));
    }
}

/// Removes an identifier from a sorted list, if it is there.
#[verifier::spinoff_prover]
#[verifier::rlimit(30)]
fn remove_sorted(ids: &mut Vec<ObjectId>, object_id: ObjectId)
    requires
        sorted_ids(old(ids)@),
    ensures
        sorted_ids(final(ids)@),
        id_values(final(ids)@) == id_values(old(ids)@).remove(object_id.value()),
{
    let v = object_id.get();
    let mut p: usize = 0;
    while p < ids.len()
        invariant
            0 <= p <= ids@.len(),
            ids@ == old(ids)@,
            sorted_ids(old(ids)@),
            v == object_id.value(),
            forall|k: int| 0 <= k < p ==> (#[trigger] ids@[k]).value() != v,
        decreases ids@.len() - p,
    {
        if ids[p].get() == v {
            ids.remove(p);
            proof {
                let s = old(ids)@;
                let t = ids@;
                assert forall|a: int, b: int| 0 <= a < b < t.len() implies (#[trigger] t[a]).value() < (
                #[trigger] t[b]).value() by {
                    if b < p {
                        assert(t[a] == s[a] && t[b] == s[b]);
                    } else if a < p {
                        assert(t[a] == s[a] && t[b] == s[b + 1]);
                    } else {
                        assert(t[a] == s[a + 1] && t[b] == s[b + 1]);
                    }
                }
                assert forall|x: u32| id_values(t).contains(x) <==> id_values(s).remove(v).contains(x) by {
                    if id_values(s).contains(x) && x != v {
                        let k = choose|k: int| 0 <= k < s.len() && (#[trigger] s[k]).value() == x;
                        if k < p {
                            assert(t[k] == s[k]);
                        } else {
                            assert(k != p);
                            assert(t[k - 1] == s[k]);
                        }
                    }
                    if id_values(t).contains(x) {
                        let k = choose|k: int| 0 <= k < t.len() && (#[trigger] t[k]).value() == x;
                        if k < p {
                            assert(t[k] == s[k]);
                        } else {
                            assert(t[k] == s[k + 1]);
                            assert(s[p as int].value() < s[k + 1].value());
                        }
                    }
                }
                assert(id_values(t) =~= id_values(s).remove(v));
            }
            return;
        }
        p = p + 1;
    }
    assert(id_values(ids@) =~= id_values(old(ids)@).remove(object_id.value()));
}


impl EventReceiverStorage {
    /// The receivers of an event follow from the keys and lists alone.
    proof fn lemma_receivers_view(&self, e: Seq<char>)
        requires
            self.wf(),
        ensures
            self@.receivers.contains_key(e) <==> exists|i: int| 0 <= i < self.event_keys@.len() && (#[trigger] self.event_keys@[i])@ == e,
            forall|i: int| 0 <= i < self.event_keys@.len() && (#[trigger] self.event_keys@[i])@ == e ==> self@.receivers[e] == id_values(self.event_ids@[i]@),
    {
        assert forall|i: int| 0 <= i < self.event_keys@.len() && (#[trigger] self.event_keys@[i])@ == e implies self@.receivers[e] == id_values(self.event_ids@[i]@) by {
            self.lemma_event_index(i);
        }
    }

    /// The events of an object follow from the keys and lists alone.
    proof fn lemma_events_view(&self, v: u32)
        requires
            self.wf(),
        ensures
            self@.events.contains_key(v) <==> exists|j: int| 0 <= j < self.object_keys@.len() && (#[trigger] self.object_keys@[j]).value() == v,
            forall|j: int| 0 <= j < self.object_keys@.len() && (#[trigger] self.object_keys@[j]).value() == v ==> self@.events[v] == strings(self.object_events@[j]@),
    {
        assert forall|j: int| 0 <= j < self.object_keys@.len() && (#[trigger] self.object_keys@[j]).value() == v implies self@.events[v] == strings(self.object_events@[j]@) by {
            self.lemma_object_index(j);
        }
    }

    /// Replacing the receiver list of one event changes the receivers of that
    /// event alone.
    proof fn lemma_replace_receivers(&self, new: &EventReceiverStorage, i: int, ids: Set<u32>)
        requires
            self.wf(),
            new.wf(),
            0 <= i < self.event_keys@.len(),
            new.event_keys@ == self.event_keys@,
            new.event_ids@.len() == self.event_ids@.len(),
            forall|k: int| 0 <= k < self.event_ids@.len() && k != i ==> new.event_ids@[k] == self.event_ids@[k],
            id_values(new.event_ids@[i]@) == ids,
            new.object_keys@ == self.object_keys@,
            new.object_events@ == self.object_events@,
        ensures
            new@.receivers == self@.receivers.insert(self.event_keys@[i]@, ids),
            new@.events == self@.events,
    {
        let target = self@.receivers.insert(self.event_keys@[i]@, ids);
        assert forall|e: Seq<char>| #![trigger new@.receivers.contains_key(e)]
            new@.receivers.contains_key(e) == target.contains_key(e) && (new@.receivers.contains_key(e) ==> new@.receivers[e] == target[e]) by {
            self.lemma_receivers_view(e);
            new.lemma_receivers_view(e);
            if new@.receivers.contains_key(e) {
                let k = choose|k: int| 0 <= k < new.event_keys@.len() && (#[trigger] new.event_keys@[k])@ == e;
                assert(self.event_keys@[k] == new.event_keys@[k]);
                if k != i {
                    assert(new.event_ids@[k] == self.event_ids@[k]);
                    assert(self.event_keys@[k]@ != self.event_keys@[i]@) by {
                        if k < i {} else {}
                    }
                }
            }
            if self@.receivers.contains_key(e) {
                let k = choose|k: int| 0 <= k < self.event_keys@.len() && (#[trigger] self.event_keys@[k])@ == e;
                assert(self.event_keys@[k] == new.event_keys@[k]);
            }
        }
        assert(new@.receivers =~= target);
        assert(new@.events =~= self@.events);
    }

    /// Registers the object as a receiver of the event, and the event among
    /// the object's events.
    #[verifier::spinoff_prover]
    #[verifier::rlimit(30)]
    pub fn listen(&mut self, event: String, object_id: ObjectId)
        requires
            old(self).wf(),
        ensures
            final(self).wf(),
            final(self)@ == old(self)@.after_listen(event@, object_id.value()),
    {
        let ghost o = *old(self);
        let ghost target = old(self)@.receivers.insert(
            event@,
            old(self)@.receivers_of(event@).insert(object_id.value()),
        );
        match self.find_event(&event) {
            Some(i) => {
                proof {
                    o.lemma_event_index(i as int);
                }
                let ghost before = self.event_ids@;
                insert_sorted(&mut self.event_ids[i], object_id);
                proof {
                    assert forall|k: int| 0 <= k < before.len() && k != i implies self.event_ids@[k] == before[k] by {}
                    assert(self.wf());
                    assert forall|e: Seq<char>| #![trigger self@.receivers.contains_key(e)]
                        self@.receivers.contains_key(e) == target.contains_key(e) && (self@.receivers.contains_key(e) ==> self@.receivers[e] == target[e]) by {
                        o.lemma_receivers_view(e);
                        self.lemma_receivers_view(e);
                        if self@.receivers.contains_key(e) {
                            let k = choose|k: int| 0 <= k < self.event_keys@.len() && (#[trigger] self.event_keys@[k])@ == e;
                            assert(o.event_keys@[k] == self.event_keys@[k]);
                        }
                    }
                    assert(self@.receivers =~= target);
                }
            },
            None => {
                self.event_keys.push(event.clone());
                let mut ids: Vec<ObjectId> = Vec::new();
                ids.push(object_id);
                self.event_ids.push(ids);
                proof {
                    let n = o.event_keys@.len() as int;
                    assert(self.event_keys@[n]@ == event@);
                    assert(self.event_ids@[n]@ == seq![object_id]);
                    assert forall|x: u32| id_values(seq![object_id]).contains(x) <==> x == object_id.value() by {
                        if x == object_id.value() {
                            assert(seq![object_id][0] == object_id);
                        }
                    }
                    assert(id_values(self.event_ids@[n]@) =~= Set::<u32>::empty().insert(object_id.value()));
                    assert(self.wf());
                    assert forall|e: Seq<char>| #![trigger self@.receivers.contains_key(e)]
                        self@.receivers.contains_key(e) == target.contains_key(e) && (self@.receivers.contains_key(e) ==> self@.receivers[e] == target[e]) by {
                        o.lemma_receivers_view(e);
                        self.lemma_receivers_view(e);
                        if self@.receivers.contains_key(e) {
                            let k = choose|k: int| 0 <= k < self.event_keys@.len() && (#[trigger] self.event_keys@[k])@ == e;
                            if k < n {
                                assert(o.event_keys@[k] == self.event_keys@[k]);
                                assert(o.event_ids@[k] == self.event_ids@[k]);
                                if e == event@ {
                                    assert(o@.receivers.contains_key(event@));
                                }
                            }
                        }
                        if o@.receivers.contains_key(e) {
                            let k = choose|k: int| 0 <= k < o.event_keys@.len() && (#[trigger] o.event_keys@[k])@ == e;
                            assert(o.event_keys@[k] == self.event_keys@[k]);
                        }
                    }
                    assert(self@.receivers =~= target);
                }
            },
        }
        let ghost mid = *self;
        let ghost v = object_id.value();
        let ghost etarget = old(self)@.events.insert(v, old(self)@.events_of(v).push(event@));
        let ghost event_view = event@;
        match self.find_object(object_id) {
            Some(j) => {
                proof {
                    mid.lemma_object_index(j as int);
                }
                self.object_events[j].push(event);
                proof {
                    assert(self.wf());
                    assert forall|x: u32| #![trigger self@.events.contains_key(x)]
                        self@.events.contains_key(x) == etarget.contains_key(x) && (self@.events.contains_key(x) ==> self@.events[x] == etarget[x]) by {
                        mid.lemma_events_view(x);
                        self.lemma_events_view(x);
                        if self@.events.contains_key(x) {
                            let k = choose|k: int| 0 <= k < self.object_keys@.len() && (#[trigger] self.object_keys@[k]).value() == x;
                            assert(mid.object_keys@[k] == self.object_keys@[k]);
                            if k == j {
                                assert(strings(self.object_events@[k]@) =~= strings(mid.object_events@[k]@).push(event_view));
                            } else {
                                assert(self.object_events@[k] == mid.object_events@[k]);
                            }
                        }
                    }
                }
            },
            None => {
                self.object_keys.push(object_id);
                let mut events: Vec<String> = Vec::new();
                events.push(event);
                self.object_events.push(events);
                proof {
                    let n = mid.object_keys@.len() as int;
                    assert(self.object_keys@[n] == object_id);
                    assert(strings(self.object_events@[n]@) =~= seq![event_view]);
                    assert(self.wf());
                    assert forall|x: u32| #![trigger self@.events.contains_key(x)]
                        self@.events.contains_key(x) == etarget.contains_key(x) && (self@.events.contains_key(x) ==> self@.events[x] == etarget[x]) by {
                        mid.lemma_events_view(x);
                        self.lemma_events_view(x);
                        if self@.events.contains_key(x) {
                            let k = choose|k: int| 0 <= k < self.object_keys@.len() && (#[trigger] self.object_keys@[k]).value() == x;
                            if k < n {
                                assert(mid.object_keys@[k] == self.object_keys@[k]);
                                assert(mid.object_events@[k] == self.object_events@[k]);
                                if x == v {
                                    assert(mid@.events.contains_key(v));
                                }
                            } else {
                                assert(Seq::<Seq<char>>::empty().push(event_view) =~= seq![event_view]);
                            }
                        }
                        if mid@.events.contains_key(x) {
                            let k = choose|k: int| 0 <= k < mid.object_keys@.len() && (#[trigger] mid.object_keys@[k]).value() == x;
                            assert(mid.object_keys@[k] == self.object_keys@[k]);
                        }
                    }
                }
            },
        }
        proof {
            assert(self@.receivers == mid@.receivers) by {
                assert(self.event_keys@ == mid.event_keys@);
                assert(self.event_ids@ == mid.event_ids@);
                assert(self@.receivers =~= mid@.receivers);
            }
            assert(self@.events =~= etarget);
            assert(self@ == old(self)@.after_listen(event@, object_id.value()));
        }
    }
}


/// The first index of `e` is the one before which `e` does not occur.
proof fn lemma_first_index(s: Seq<Seq<char>>, e: Seq<char>, k: int)
    requires
        0 <= k < s.len(),
        s[k] == e,
        forall|j: int| 0 <= j < k ==> s[j] != e,
    ensures
        first_index(s, e) == Some(k),
{
    let c = choose|c: int| 0 <= c < s.len() && s[c] == e && forall|j: int| 0 <= j < c ==> s[j] != e;
    if c < k {
        assert(s[c] != e);
    } else if c > k {
        assert(s[k] != e);
    }
}

impl EventReceiverStorage {
    /// Removes the object from the receivers of the event, and the first
    /// listing of the event from the object's events.
    #[verifier::spinoff_prover]
    #[verifier::rlimit(30)]
    pub fn unlisten(&mut self, event: String, object_id: ObjectId)
        requires
            old(self).wf(),
        ensures
            final(self).wf(),
            final(self)@ == old(self)@.after_unlisten(event@, object_id.value()),
    {
        let ghost o = *old(self);
        let ghost v = object_id.value();
        let ghost ev = event@;
        let ghost target = old(self)@.after_unlisten(event@, object_id.value());
        match self.find_event(&event) {
            Some(i) => {
                proof {
                    o.lemma_event_index(i as int);
                }
                let ghost before = self.event_ids@;
                remove_sorted(&mut self.event_ids[i], object_id);
                proof {
                    assert forall|k: int| 0 <= k < before.len() && k != i implies self.event_ids@[k] == before[k] by {}
                    assert(self.wf());
                    assert forall|e: Seq<char>| #![trigger self@.receivers.contains_key(e)]
                        self@.receivers.contains_key(e) == target.receivers.contains_key(e) && (self@.receivers.contains_key(e) ==> self@.receivers[e] == target.receivers[e]) by {
                        o.lemma_receivers_view(e);
                        self.lemma_receivers_view(e);
                        if self@.receivers.contains_key(e) {
                            let k = choose|k: int| 0 <= k < self.event_keys@.len() && (#[trigger] self.event_keys@[k])@ == e;
                            assert(o.event_keys@[k] == self.event_keys@[k]);
                        }
                    }
                    assert(self@.receivers =~= target.receivers);
                }
            },
            None => {
                assert(self@.receivers =~= target.receivers);
            },
        }
        let ghost mid = *self;
        match self.find_object(object_id) {
            Some(j) => {
                proof {
                    mid.lemma_object_index(j as int);
                }
                let n = self.object_events[j].len();
                let k = match find_string(&self.object_events[j], &event) {
                    Some(k) => k,
                    None => n,
                };
                let ghost es = strings(mid.object_events@[j as int]@);
                if k < n {
                    proof {
                        assert(es[k as int] == ev);
                        lemma_first_index(es, ev, k as int);
                    }
                    let ghost before = self.object_events@;
                    self.object_events[j].swap_remove(k);
                    proof {
                        assert(strings(self.object_events@[j as int]@) =~= swap_removed(es, k as int));
                        assert forall|t: int| 0 <= t < before.len() && t != j implies self.object_events@[t] == before[t] by {}
                    }
                } else {
                    proof {
                        assert(!(exists|t: int| 0 <= t < es.len() && es[t] == ev)) by {
                            if exists|t: int| 0 <= t < es.len() && es[t] == ev {
                                let t = choose|t: int| 0 <= t < es.len() && es[t] == ev;
                                assert((mid.object_events@[j as int]@[t])@ == ev);
                            }
                        }
                    }
                }
                proof {
                    assert(self.wf());
                    assert forall|x: u32| #![trigger self@.events.contains_key(x)]
                        self@.events.contains_key(x) == target.events.contains_key(x) && (self@.events.contains_key(x) ==> self@.events[x] == target.events[x]) by {
                        mid.lemma_events_view(x);
                        self.lemma_events_view(x);
                        if self@.events.contains_key(x) {
                            let t = choose|t: int| 0 <= t < self.object_keys@.len() && (#[trigger] self.object_keys@[t]).value() == x;
                            assert(mid.object_keys@[t] == self.object_keys@[t]);
                        }
                    }
                    assert(self@.events =~= target.events);
                }
            },
            None => {
                assert(self@.events =~= target.events);
            },
        }
        proof {
            assert(self@.receivers == mid@.receivers) by {
                assert(self.event_keys@ == mid.event_keys@);
                assert(self.event_ids@ == mid.event_ids@);
                assert(self@.receivers =~= mid@.receivers);
            }
        }
    }

    /// Forgets the object's events and removes it from the receivers of each.
    #[verifier::spinoff_prover]
    #[verifier::rlimit(30)]
    pub fn unlisten_all(&mut self, object_id: ObjectId)
        requires
            old(self).wf(),
        ensures
            final(self).wf(),
            final(self)@ == old(self)@.after_unlisten_all(object_id.value()),
    {
        let ghost o = *old(self);
        let ghost v = object_id.value();
        let ghost target = old(self)@.after_unlisten_all(v);
        match self.find_object(object_id) {
            Some(j) => {
                proof {
                    o.lemma_object_index(j as int);
                }
                let events = self.object_events.swap_remove(j);
                self.object_keys.swap_remove(j);
                let ghost es = strings(events@);
                proof {
                    assert(es == old(self)@.events_of(v));
                    assert(self.wf()) by {
                        let ok = o.object_keys@;
                        let nk = self.object_keys@;
                        assert forall|a: int, b: int| 0 <= a < b < nk.len() implies (#[trigger] nk[a]).value() != (#[trigger] nk[b]).value() by {
                            let oa = if a == j { ok.len() - 1 } else { a };
                            let ob = if b == j { ok.len() - 1 } else { b };
                            assert(nk[a] == ok[oa]);
                            assert(nk[b] == ok[ob]);
                        }
                    }
                    assert forall|x: u32| #![trigger self@.events.contains_key(x)]
                        self@.events.contains_key(x) == target.events.contains_key(x) && (self@.events.contains_key(x) ==> self@.events[x] == target.events[x]) by {
                        o.lemma_events_view(x);
                        self.lemma_events_view(x);
                        let ok = o.object_keys@;
                        if self@.events.contains_key(x) {
                            let t = choose|t: int| 0 <= t < self.object_keys@.len() && (#[trigger] self.object_keys@[t]).value() == x;
                            let ot = if t == j { ok.len() - 1 } else { t };
                            assert(self.object_keys@[t] == ok[ot]);
                            assert(self.object_events@[t] == o.object_events@[ot]);
                            assert(x != v);
                        }
                        if o@.events.contains_key(x) && x != v {
                            let t = choose|t: int| 0 <= t < ok.len() && (#[trigger] ok[t]).value() == x;
                            assert(t != j);
                            if t == ok.len() - 1 {
                                assert(self.object_keys@[j as int] == ok[t]);
                            } else {
                                assert(self.object_keys@[t] == ok[t]);
                            }
                        }
                    }
                    assert(self@.events =~= target.events);
                }
                let ghost after_objects = *self;
                let mut t: usize = 0;
                while t < events.len()
                    invariant
                        0 <= t <= events@.len(),
                        es == strings(events@),
                        v == object_id.value(),
                        self.wf(),
                        self@.events == target.events,
                        self.event_keys@ == o.event_keys@,
                        self.event_ids@.len() == o.event_ids@.len(),
                        o.wf(),
                        forall|e: Seq<char>| #![trigger self@.receivers.contains_key(e)]
                            self@.receivers.contains_key(e) == o@.receivers.contains_key(e) && (self@.receivers.contains_key(e) ==> self@.receivers[e] == if es.take(t as int).contains(e) {
                                o@.receivers[e].remove(v)
                            } else {
                                o@.receivers[e]
                            }),
                    decreases events@.len() - t,
                {
                    let ghost cur = *self;
                    let ghost e_t = es[t as int];
                    assert(events@[t as int]@ == e_t);
                    match self.find_event(&events[t]) {
                        Some(i) => {
                            proof {
                                cur.lemma_event_index(i as int);
                            }
                            let ghost before = self.event_ids@;
                            remove_sorted(&mut self.event_ids[i], object_id);
                            proof {
                                assert forall|k: int| 0 <= k < before.len() && k != i implies self.event_ids@[k] == before[k] by {}
                                assert(self.wf());
                                assert(cur.event_keys@[i as int]@ == e_t);
                                assert(cur.event_ids@[i as int] == before[i as int]);
                                assert(id_values(self.event_ids@[i as int]@) == cur@.receivers[e_t].remove(v));
                                cur.lemma_replace_receivers(self, i as int, cur@.receivers[e_t].remove(v));
                                lemma_take_step(es, t as int);
                                assert forall|e: Seq<char>| #![trigger self@.receivers.contains_key(e)]
                                    self@.receivers.contains_key(e) == o@.receivers.contains_key(e) && (self@.receivers.contains_key(e) ==> self@.receivers[e] == if es.take(t as int + 1).contains(e) {
                                        o@.receivers[e].remove(v)
                                    } else {
                                        o@.receivers[e]
                                    }) by {
                                    assert(cur@.receivers.contains_key(e) == o@.receivers.contains_key(e));
                                    if e == e_t {
                                        assert(o@.receivers[e].remove(v).remove(v) =~= o@.receivers[e].remove(v));
                                    }
                                }
                            }
                        },
                        None => {
                            proof {
                                lemma_take_step(es, t as int);
                                assert forall|e: Seq<char>| #![trigger self@.receivers.contains_key(e)]
                                    self@.receivers.contains_key(e) == o@.receivers.contains_key(e) && (self@.receivers.contains_key(e) ==> self@.receivers[e] == if es.take(t as int + 1).contains(e) {
                                        o@.receivers[e].remove(v)
                                    } else {
                                        o@.receivers[e]
                                    }) by {
                                    if e == e_t {
                                        cur.lemma_receivers_view(e);
                                    }
                                }
                            }
                        },
                    }
                    t = t + 1;
                }
                proof {
                    assert(es.take(events@.len() as int) =~= es);
                    assert(self@.receivers =~= target.receivers);
                }
            },
            None => {
                proof {
                    assert(old(self)@.events_of(v) == Seq::<Seq<char>>::empty());
                    assert(self@.events =~= target.events);
                    assert(self@.receivers =~= target.receivers);
                }
            },
        }
    }

    /// The receivers of the event, in increasing order of identifier (none
    /// when it was never listened to).
    pub fn receivers(&self, event: &str) -> (r: Vec<ObjectId>)
        requires
            self.wf(),
        ensures
            sorted_ids(r@),
            id_values(r@) == self@.receivers_of(event@),
    {
        let key = event.to_owned();
        match self.find_event(&key) {
            Some(i) => {
                proof {
                    self.lemma_event_index(i as int);
                }
                let ids = &self.event_ids[i];
                let mut r: Vec<ObjectId> = Vec::new();
                let mut k: usize = 0;
                while k < ids.len()
                    invariant
                        0 <= k <= ids@.len(),
                        r@ == ids@.take(k as int),
                    decreases ids@.len() - k,
                {
                    r.push(ids[k]);
                    proof {
                        assert(ids@.take(k as int + 1) =~= ids@.take(k as int).push(ids@[k as int]));
                    }
                    k = k + 1;
                }
                proof {
                    assert(ids@.take(ids@.len() as int) =~= ids@);
                }
                r
            },
            None => {
                let r: Vec<ObjectId> = Vec::new();
                proof {
                    assert(id_values(r@) =~= Set::<u32>::empty());
                }
                r
            },
        }
    }
}


/// Growing a prefix by one element adds that element to what it contains.
proof fn lemma_take_step(s: Seq<Seq<char>>, t: int)
    requires
        0 <= t < s.len(),
    ensures
        forall|e: Seq<char>| #[trigger] s.take(t + 1).contains(e) == (s.take(t).contains(e) || e == s[t]),
{
    assert forall|e: Seq<char>| #[trigger] s.take(t + 1).contains(e) == (s.take(t).contains(e) || e == s[t]) by {
        if s.take(t + 1).contains(e) && e != s[t] {
            let w = choose|w: int| 0 <= w < t + 1 && #[trigger] s.take(t + 1)[w] == e;
            assert(s.take(t)[w] == e);
        }
        if s.take(t).contains(e) {
            let w = choose|w: int| 0 <= w < t && #[trigger] s.take(t)[w] == e;
            assert(s.take(t + 1)[w] == e);
        }
        if e == s[t] {
            assert(s.take(t + 1)[t] == e);
        }
    }
}

/// The place of the first string equal to `e`, if any.
fn find_string(v: &Vec<String>, e: &String) -> (r: Option<usize>)
    ensures
        r matches Some(k) ==> k < v@.len() && v@[k as int]@ == e@ && forall|t: int| 0 <= t < k ==> (#[trigger] v@[t])@ != e@,
        r is None ==> forall|t: int| 0 <= t < v@.len() ==> (#[trigger] v@[t])@ != e@,
{
    let mut k: usize = 0;
    while k < v.len()
        invariant
            0 <= k <= v@.len(),
            forall|t: int| 0 <= t < k ==> (#[trigger] v@[t])@ != e@,
        decreases v@.len() - k,
    {
        if v[k] == *e {
            return Some(k);
        }
        k = k + 1;
    }
    None
}

} // verus!
