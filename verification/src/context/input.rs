use vstd::prelude::*;

verus! {

/// The state of one named key: the physical key it stands for (by its key
/// code), whether it is held down, and whether it went down during the current
/// frame.
#[derive(Debug, Clone, Copy, PartialEq, Eq)]
pub struct InputKey {
    pub key: u32,
    pub is_pressed: bool,
    pub is_pressed_frame: bool,
}

impl InputKey {
    pub open spec fn released(key: u32) -> InputKey {
        InputKey { key, is_pressed: false, is_pressed_frame: false }
    }

    /// A key that is up.
    pub fn new(key: u32) -> (r: InputKey)
        ensures
            r == InputKey::released(key),
    {
        InputKey { key, is_pressed: false, is_pressed_frame: false }
    }
}

/// The state of a key after an event of its physical key.
pub open spec fn after_key_event(k: InputKey, key: u32, pressed: bool) -> InputKey {
    if k.key == key {
        InputKey { is_pressed: pressed, is_pressed_frame: pressed, ..k }
    } else {
        k
    }
}

/// The named keys the game registered, by name.
#[derive(Debug)]
pub struct Input {
    names: Vec<String>,
    keys: Vec<InputKey>,
}

impl View for Input {
    type V = Map<Seq<char>, InputKey>;

    closed spec fn view(&self) -> Map<Seq<char>, InputKey> {
        Map::new(
            |n: Seq<char>| exists|i: int| 0 <= i < self.names@.len() && (#[trigger] self.names@[i])@ == n,
            |n: Seq<char>| self.keys@[self.name_index(n)],
        )
    }
}

impl Input {
    spec fn name_index(&self, n: Seq<char>) -> int {
        choose|i: int| 0 <= i < self.names@.len() && (#[trigger] self.names@[i])@ == n
    }

    /// Names are unique and each has a key.
    pub closed spec fn wf(&self) -> bool {
        &&& self.names@.len() == self.keys@.len()
        &&& forall|a: int, b: int|
            0 <= a < b < self.names@.len() ==> (#[trigger] self.names@[a])@ != (#[trigger] self.names@[b])@
    }

    proof fn lemma_name_index(&self, i: int)
        requires
            self.wf(),
            0 <= i < self.names@.len(),
        ensures
            self.name_index(self.names@[i]@) == i,
            self@.contains_key(self.names@[i]@),
            self@[self.names@[i]@] == self.keys@[i],
    {
        let n = self.names@[i]@;
        assert(exists|j: int| 0 <= j < self.names@.len() && (#[trigger] self.names@[j])@ == n);
        let k = self.name_index(n);
        if k != i {
            if k < i {
                assert(self.names@[k]@ != self.names@[i]@);
            } else {
                assert(self.names@[i]@ != self.names@[k]@);
            }
        }
    }

    /// The view follows from the lists, place by place.
    proof fn lemma_view(&self)
        requires
            self.wf(),
        ensures
            forall|n: Seq<char>|
                #[trigger] self@.contains_key(n) <==> exists|i: int|
                    0 <= i < self.names@.len() && (#[trigger] self.names@[i])@ == n,
            forall|i: int| 0 <= i < self.names@.len() ==> #[trigger] self@[self.names@[i]@] == self.keys@[i],
    {
        assert forall|i: int| 0 <= i < self.names@.len() implies #[trigger] self@[self.names@[i]@] == self.keys@[i] by {
            self.lemma_name_index(i);
        }
    }

    pub fn new() -> (r: Input)
        ensures
            r.wf(),
            r@ == Map::<Seq<char>, InputKey>::empty(),
    {
        let r = Input { names: Vec::new(), keys: Vec::new() };
        assert(r@ =~= Map::<Seq<char>, InputKey>::empty());
        r
    }

    fn find(&self, name: &String) -> (r: Option<usize>)
        requires
            self.wf(),
        ensures
            r matches Some(i) ==> i < self.names@.len() && self.names@[i as int]@ == name@,
            r is None ==> !self@.contains_key(name@),
    {
        let mut i: usize = 0;
        while i < self.names.len()
            invariant
                0 <= i <= self.names@.len(),
                forall|k: int| 0 <= k < i ==> (#[trigger] self.names@[k])@ != name@,
            decreases self.names@.len() - i,
        {
            if self.names[i] == *name {
                return Some(i);
            }
            i = i + 1;
        }
        None
    }

    /// The key registered under the name, if any.
    pub fn key(&self, name: &str) -> (r: Option<&InputKey>)
        requires
            self.wf(),
        ensures
            r matches Some(k) ==> self@.contains_key(name@) && *k == self@[name@],
            r is None ==> !self@.contains_key(name@),
    {
        let key = name.to_owned();
        match self.find(&key) {
            Some(i) => {
                proof {
                    self.lemma_name_index(i as int);
                }
                Some(&self.keys[i])
            },
            None => None,
        }
    }

    /// Registers the physical key under the name, up; a key registered under
    /// that name before is replaced.
    #[verifier::spinoff_prover]
    #[verifier::rlimit(30)]
    pub fn register_key(&mut self, name: String, key: u32)
        requires
            old(self).wf(),
        ensures
            final(self).wf(),
            final(self)@ == old(self)@.insert(name@, InputKey::released(key)),
    {
        let ghost o = *old(self);
        let fresh = InputKey::new(key);
        match self.find(&name) {
            Some(i) => {
                self.keys.set(i, fresh);
                proof {
                    o.lemma_view();
                    self.lemma_view();
                    assert forall|n: Seq<char>| #![trigger self@.contains_key(n)]
                        self@.contains_key(n) == o@.insert(name@, fresh).contains_key(n) && (self@.contains_key(n) ==> self@[n] == o@.insert(name@, fresh)[n]) by {
                        if self@.contains_key(n) {
                            let k = choose|k: int| 0 <= k < self.names@.len() && (#[trigger] self.names@[k])@ == n;
                            assert(self@[self.names@[k]@] == self.keys@[k]);
                            if k != i {
                                assert(self.names@[k]@ != self.names@[i as int]@) by {
                                    if k < i {} else {}
                                }
                                assert(o@[o.names@[k]@] == o.keys@[k]);
                            }
                        }
                        if o@.contains_key(n) {
                            let k = choose|k: int| 0 <= k < o.names@.len() && (#[trigger] o.names@[k])@ == n;
                            assert(self.names@[k] == o.names@[k]);
                        }
                    }
                    assert(self@ =~= o@.insert(name@, fresh));
                }
            },
            None => {
                let ghost nv = name@;
                self.names.push(name);
                self.keys.push(fresh);
                proof {
                    let last = o.names@.len() as int;
                    assert(self.names@[last]@ == nv);
                    assert(self.wf());
                    o.lemma_view();
                    self.lemma_view();
                    assert forall|n: Seq<char>| #![trigger self@.contains_key(n)]
                        self@.contains_key(n) == o@.insert(nv, fresh).contains_key(n) && (self@.contains_key(n) ==> self@[n] == o@.insert(nv, fresh)[n]) by {
                        if self@.contains_key(n) {
                            let k = choose|k: int| 0 <= k < self.names@.len() && (#[trigger] self.names@[k])@ == n;
                            assert(self@[self.names@[k]@] == self.keys@[k]);
                            if k < last {
                                assert(self.names@[k] == o.names@[k]);
                                assert(o@[o.names@[k]@] == o.keys@[k]);
                            }
                        }
                        if o@.contains_key(n) {
                            let k = choose|k: int| 0 <= k < o.names@.len() && (#[trigger] o.names@[k])@ == n;
                            assert(self.names@[k] == o.names@[k]);
                        }
                    }
                    assert(self@ =~= o@.insert(nv, fresh));
                }
            },
        }
    }

    /// Ends a frame: no key went down during the next one yet.
    pub fn reset_current_frame_state(&mut self)
        requires
            old(self).wf(),
        ensures
            final(self).wf(),
            final(self)@.dom() == old(self)@.dom(),
            forall|n: Seq<char>|
                #[trigger] final(self)@.contains_key(n) ==> final(self)@[n] == (InputKey {
                    is_pressed_frame: false,
                    ..old(self)@[n]
                }),
    {
        let ghost o = *old(self);
        let mut i: usize = 0;
        while i < self.keys.len()
            invariant
                0 <= i <= self.keys@.len(),
                self.names@ == o.names@,
                self.keys@.len() == o.keys@.len(),
                o.wf(),
                forall|k: int|
                    0 <= k < self.keys@.len() ==> #[trigger] self.keys@[k] == if k < i {
                        InputKey { is_pressed_frame: false, ..o.keys@[k] }
                    } else {
                        o.keys@[k]
                    },
            decreases self.keys@.len() - i,
        {
            let mut k = self.keys[i];
            k.is_pressed_frame = false;
            self.keys.set(i, k);
            i = i + 1;
        }
        proof {
            o.lemma_view();
            self.lemma_view();
            assert(self@.dom() =~= o@.dom());
        }
    }

    /// A key event of the physical key `key`: every name registered for that
    /// key becomes held (and went down this frame) when `pressed`, else up.
    pub fn handle_key_event(&mut self, key: u32, pressed: bool)
        requires
            old(self).wf(),
        ensures
            final(self).wf(),
            final(self)@.dom() == old(self)@.dom(),
            forall|n: Seq<char>|
                #[trigger] final(self)@.contains_key(n) ==> final(self)@[n] == after_key_event(
                    old(self)@[n],
                    key,
                    pressed,
                ),
            forall|n: Seq<char>|
                #[trigger] final(self)@.contains_key(n) && old(self)@[n].key != key ==> final(self)@[n] == old(
                    self,
                )@[n],
            forall|n: Seq<char>|
                #[trigger] final(self)@.contains_key(n) && old(self)@[n].key == key ==> {
                    &&& final(self)@[n].key == key
                    &&& final(self)@[n].is_pressed == pressed
                    &&& final(self)@[n].is_pressed_frame == pressed
                },
    {
        let ghost o = *old(self);
        let mut i: usize = 0;
        while i < self.keys.len()
            invariant
                0 <= i <= self.keys@.len(),
                self.names@ == o.names@,
                self.keys@.len() == o.keys@.len(),
                o.wf(),
                forall|k: int|
                    0 <= k < self.keys@.len() ==> #[trigger] self.keys@[k] == if k < i {
                        after_key_event(o.keys@[k], key, pressed)
                    } else {
                        o.keys@[k]
                    },
            decreases self.keys@.len() - i,
        {
            let mut k = self.keys[i];
            if k.key == key {
                k.is_pressed = pressed;
                k.is_pressed_frame = pressed;
                self.keys.set(i, k);
            }
            i = i + 1;
        }
        proof {
            o.lemma_view();
            self.lemma_view();
            assert(self@.dom() =~= o@.dom());
            assert forall|n: Seq<char>| #[trigger] self@.contains_key(n) implies self@[n] == after_key_event(o@[n], key, pressed) by {
                let k = choose|k: int| 0 <= k < self.names@.len() && (#[trigger] self.names@[k])@ == n;
                assert(self@[self.names@[k]@] == self.keys@[k]);
                assert(o@[o.names@[k]@] == o.keys@[k]);
            }
            assert forall|n: Seq<char>| #[trigger] self@.contains_key(n) implies after_key_event(o@[n], key, pressed) == (
                if o@[n].key == key {
                    InputKey { key, is_pressed: pressed, is_pressed_frame: pressed }
                } else {
                    o@[n]
                }) by {
                lemma_key_event(o@[n], key, pressed);
            }
        }
    }
}

/// An event of one physical key changes only the keys registered for it:
/// every other key is left as it was, and each key of that physical key
/// becomes held (and new this frame) exactly when the event presses it.
/// Events of two different physical keys do not depend on each other's order.
pub proof fn lemma_key_event(k: InputKey, key: u32, pressed: bool)
    ensures
        k.key != key ==> after_key_event(k, key, pressed) == k,
        k.key == key ==> after_key_event(k, key, pressed) == (InputKey {
            key,
            is_pressed: pressed,
            is_pressed_frame: pressed,
        }),
        forall|key2: u32, pressed2: bool|
            key2 != key ==> #[trigger] after_key_event(after_key_event(k, key, pressed), key2, pressed2)
                == after_key_event(after_key_event(k, key2, pressed2), key, pressed),
{
}

/// A key that went down is held and went down this frame; once the frame ends
/// it is still held but no longer new; a key that went up is neither.
pub proof fn lemma_press_then_frame_end(k: InputKey, pressed: bool)
    ensures
        after_key_event(k, k.key, pressed).is_pressed == pressed,
        after_key_event(k, k.key, pressed).is_pressed_frame == pressed,
        (InputKey { is_pressed_frame: false, ..after_key_event(k, k.key, pressed) }).is_pressed == pressed,
        !(InputKey { is_pressed_frame: false, ..after_key_event(k, k.key, pressed) }).is_pressed_frame,
{
}

} // verus!
