use super::super::object_id::ObjectId;
use super::names::symbol_index;
use super::object_span::ObjectSpan;
use string_interner::DefaultSymbol;
use vstd::prelude::*;

verus! {

/// What a hierarchy storage holds. The objects are kept in pre-order: an
/// object comes right before its descendants, and its span (indexed by the
/// object's zero-based identifier) gives its place in that order and the
/// number of places it and its descendants take. The flags are kept in the
/// same order; the list of parents of an object (nearest first), its span and
/// its name are indexed by its identifier.
pub struct HierarchyModel {
    pub shape: Shape,
    pub dirties: Seq<bool>,
    pub current_frame_dirties: Seq<bool>,
    pub actives: Seq<bool>,
    pub active_selfs: Seq<bool>,
    pub names: Seq<DefaultSymbol>,
    pub interned: Seq<Seq<char>>,
}

/// `s` with the places `lo..hi` set to `v`.
pub open spec fn fill_range(s: Seq<bool>, lo: int, hi: int, v: bool) -> Seq<bool> {
    Seq::new(s.len(), |i: int| if lo <= i < hi { v } else { s[i] })
}

/// `s` with the places `l..m` and `m..r` swapped.
pub open spec fn rotate<T>(s: Seq<T>, l: int, m: int, r: int) -> Seq<T> {
    s.take(l) + s.subrange(m, r) + s.subrange(l, m) + s.skip(r)
}

/// `s` without the places `lo..hi`.
pub open spec fn cut<T>(s: Seq<T>, lo: int, hi: int) -> Seq<T> {
    s.take(lo) + s.skip(hi)
}

/// Whether some element of `ids` has the zero-based identifier `k`.
pub open spec fn has_id(ids: Seq<ObjectId>, k: int) -> bool {
    exists|j: int| 0 <= j < ids.len() && (#[trigger] ids[j]).zero_based() == k
}

/// The shape of a hierarchy: the ordered objects, the spans and the parent lists.
pub struct Shape {
    pub objects: Seq<ObjectId>,
    pub spans: Seq<ObjectSpan>,
    pub parents: Seq<Seq<ObjectId>>,
}

impl Shape {
    pub open spec fn len(self) -> int {
        self.objects.len() as int
    }

    /// The object has a span and a parent list.
    pub open spec fn has_slot(self, o: ObjectId) -> bool {
        0 <= o.zero_based() < self.spans.len()
    }

    pub open spec fn span_of(self, o: ObjectId) -> ObjectSpan {
        self.spans[o.zero_based()]
    }

    pub open spec fn pos_of(self, o: ObjectId) -> int {
        self.span_of(o).index as int
    }

    pub open spec fn count_of(self, o: ObjectId) -> int {
        self.span_of(o).count as int
    }

    pub open spec fn parents_of(self, o: ObjectId) -> Seq<ObjectId> {
        self.parents[o.zero_based()]
    }

    /// The object is in the hierarchy.
    pub open spec fn contains_object(self, o: ObjectId) -> bool {
        &&& self.has_slot(o)
        &&& 0 <= self.pos_of(o) < self.len()
        &&& self.objects[self.pos_of(o)] == o
    }

    /// The object has a slot whose place lies within the ordered lists.
    pub open spec fn has_place(self, o: ObjectId) -> bool {
        self.has_slot(o) && 0 <= self.pos_of(o) < self.len()
    }

    /// The number of places taken by the object at place `p` and its descendants.
    pub open spec fn cnt(self, p: int) -> int {
        self.count_of(self.objects[p])
    }

    /// The object at place `p` is an ancestor of the object at place `q`.
    pub open spec fn encloses(self, p: int, q: int) -> bool {
        0 <= p < q < p + self.cnt(p)
    }

    /// The slot `k` belongs to the object at a place in `lo..hi`.
    pub open spec fn slot_in(self, k: int, lo: int, hi: int) -> bool {
        &&& lo <= self.spans[k].index < hi
        &&& self.spans[k].index < self.len()
        &&& self.objects[self.spans[k].index as int].zero_based() == k
    }


    pub open spec fn wf_positions(self) -> bool {
        forall|p: int|
            0 <= p < self.len() ==> self.has_slot(#[trigger] self.objects[p]) && self.pos_of(
                self.objects[p],
            ) == p
    }

    pub open spec fn wf_spans(self) -> bool {
        forall|p: int| 0 <= p < self.len() ==> 1 <= #[trigger] self.cnt(p) && p + self.cnt(p) <= self.len()
    }

    /// Spans are nested or apart.
    pub open spec fn wf_laminar(self) -> bool {
        forall|p: int, q: int|
            #![trigger self.encloses(p, q)]
            q < self.len() && self.encloses(p, q) ==> q + self.cnt(q) <= p + self.cnt(p)
    }

    /// The parent list of the object at place `q` is right: empty when no
    /// object encloses it, else it starts with the nearest enclosing object and
    /// goes on with the parent list of that object.
    pub open spec fn parent_link(self, q: int) -> bool {
        let ps = self.parents_of(self.objects[q]);
        if ps.len() == 0 {
            forall|p: int| #![trigger self.encloses(p, q)] !self.encloses(p, q)
        } else {
            let a = self.pos_of(ps[0]);
            &&& self.contains_object(ps[0])
            &&& self.encloses(a, q)
            &&& forall|p: int| #![trigger self.encloses(p, q)] a < p ==> !self.encloses(p, q)
            &&& ps.drop_first() == self.parents_of(ps[0])
        }
    }

    pub open spec fn wf_parents(self) -> bool {
        forall|q: int| 0 <= q < self.len() ==> #[trigger] self.parent_link(q)
    }

    /// Places, spans and parent lists agree.
    pub open spec fn wf(self) -> bool {
        &&& self.wf_positions()
        &&& self.wf_spans()
        &&& self.wf_laminar()
        &&& self.wf_parents()
    }
}

impl HierarchyModel {
    pub open spec fn len(self) -> int {
        self.shape.objects.len() as int
    }

    pub open spec fn has_slot(self, o: ObjectId) -> bool {
        self.shape.has_slot(o)
    }

    pub open spec fn span_of(self, o: ObjectId) -> ObjectSpan {
        self.shape.spans[o.zero_based()]
    }

    pub open spec fn pos_of(self, o: ObjectId) -> int {
        self.span_of(o).index as int
    }

    pub open spec fn count_of(self, o: ObjectId) -> int {
        self.span_of(o).count as int
    }

    pub open spec fn parents_of(self, o: ObjectId) -> Seq<ObjectId> {
        self.shape.parents[o.zero_based()]
    }

    pub open spec fn contains_object(self, o: ObjectId) -> bool {
        self.shape.contains_object(o)
    }

    pub open spec fn has_place(self, o: ObjectId) -> bool {
        self.shape.has_place(o)
    }

    pub open spec fn wf_lengths(self) -> bool {
        &&& self.dirties.len() == self.len()
        &&& self.current_frame_dirties.len() == self.len()
        &&& self.actives.len() == self.len()
        &&& self.active_selfs.len() == self.len()
        &&& self.names.len() == self.len()
        &&& self.shape.parents.len() == self.shape.spans.len()
        &&& self.len() <= u32::MAX
        &&& self.len() <= usize::MAX / 8
    }

    pub open spec fn wf_names(self) -> bool {
        forall|p: int| 0 <= p < self.len() ==> symbol_index(#[trigger] self.names[p]) < self.interned.len()
    }

    pub open spec fn wf_structure(self) -> bool {
        self.shape.wf()
    }

    pub open spec fn wf(self) -> bool {
        &&& self.wf_lengths()
        &&& self.wf_structure()
        &&& self.wf_names()
    }

    // ---- operations ----

    /// `add(o)`, where `sym` is the symbol of the empty name.
    pub open spec fn add(self, o: ObjectId, sym: DefaultSymbol, interned: Seq<Seq<char>>) -> HierarchyModel {
        let span = ObjectSpan { index: self.len() as u32, count: 1 };
        let reuse = o.zero_based() < self.shape.spans.len();
        HierarchyModel {
            shape: Shape {
                objects: self.shape.objects.push(o),
                spans: if reuse {
                    self.shape.spans.update(o.zero_based(), span)
                } else {
                    self.shape.spans.push(span)
                },
                parents: if reuse {
                    self.shape.parents.update(o.zero_based(), Seq::empty())
                } else {
                    self.shape.parents.push(Seq::empty())
                },
            },
            dirties: self.dirties.push(true),
            current_frame_dirties: self.current_frame_dirties.push(true),
            actives: self.actives.push(true),
            active_selfs: self.active_selfs.push(true),
            names: self.names.push(sym),
            interned,
        }
    }

    /// `set_dirty(o)`: the object and its descendants become dirty.
    pub open spec fn set_dirty(self, o: ObjectId) -> HierarchyModel {
        HierarchyModel {
            dirties: fill_range(
                self.dirties,
                self.pos_of(o),
                self.pos_of(o) + self.count_of(o),
                true,
            ),
            ..self
        }
    }

    /// The spans after `remove(o)`.
    pub open spec fn removed_spans(self, o: ObjectId) -> Seq<ObjectSpan> {
        let i = self.pos_of(o);
        let c = self.count_of(o);
        let ps = self.parents_of(o);
        Seq::new(
            self.shape.spans.len(),
            |k: int|
                ObjectSpan {
                    index: if self.shape.slot_in(k, i + c, self.len()) {
                        (self.shape.spans[k].index - c) as u32
                    } else {
                        self.shape.spans[k].index
                    },
                    count: if has_id(ps, k) {
                        (self.shape.spans[k].count - c) as u32
                    } else {
                        self.shape.spans[k].count
                    },
                },
        )
    }

    /// `remove(o)`: the object and its descendants leave the ordered lists;
    /// the ancestors' spans shrink and the spans of the objects after them
    /// move up.
    pub open spec fn remove(self, o: ObjectId) -> HierarchyModel {
        let i = self.pos_of(o);
        let c = self.count_of(o);
        let ps = self.shape.parents_of(o);
        HierarchyModel {
            shape: Shape {
                objects: cut(self.shape.objects, i, i + c),
                spans: self.removed_spans(o),
                parents: self.shape.parents,
            },
            dirties: cut(self.dirties, i, i + c),
            current_frame_dirties: cut(self.current_frame_dirties, i, i + c),
            actives: cut(self.actives, i, i + c),
            active_selfs: cut(self.active_selfs, i, i + c),
            names: cut(self.names, i, i + c),
            ..self
        }
    }

    /// `swap_range(l, m, r)` on every ordered list.
    pub open spec fn swap_range(self, l: int, m: int, r: int) -> HierarchyModel {
        HierarchyModel {
            shape: Shape { objects: rotate(self.shape.objects, l, m, r), ..self.shape },
            dirties: rotate(self.dirties, l, m, r),
            current_frame_dirties: rotate(self.current_frame_dirties, l, m, r),
            actives: rotate(self.actives, l, m, r),
            active_selfs: rotate(self.active_selfs, l, m, r),
            names: rotate(self.names, l, m, r),
            ..self
        }
    }

    /// The spans after the block of `o` moves to `dest`, before the lists move.
    pub open spec fn moved_spans(self, o: ObjectId, dest: int) -> Seq<ObjectSpan> {
        let i = self.pos_of(o);
        let c = self.count_of(o);
        Seq::new(
            self.shape.spans.len(),
            |k: int|
                ObjectSpan {
                    index: if dest < i {
                        if self.shape.slot_in(k, i, i + c) {
                            (self.shape.spans[k].index - (i - dest)) as u32
                        } else if self.shape.slot_in(k, dest, i) {
                            (self.shape.spans[k].index + c) as u32
                        } else {
                            self.shape.spans[k].index
                        }
                    } else {
                        if self.shape.slot_in(k, i, i + c) {
                            (self.shape.spans[k].index + (dest - i - c)) as u32
                        } else if self.shape.slot_in(k, i + c, dest) {
                            (self.shape.spans[k].index - c) as u32
                        } else {
                            self.shape.spans[k].index
                        }
                    },
                    count: self.shape.spans[k].count,
                },
        )
    }

    /// `move_objects(o, dest)`: the block of `o` goes before the place `dest`
    /// (when `dest` lies before it) or ends at `dest` (when `dest` lies after it).
    pub open spec fn move_objects(self, o: ObjectId, dest: int) -> HierarchyModel {
        let i = self.pos_of(o);
        let c = self.count_of(o);
        if dest == i {
            self
        } else if dest < i {
            HierarchyModel { shape: Shape { spans: self.moved_spans(o, dest), ..self.shape }, ..self }.swap_range(dest, i, i + c)
        } else {
            HierarchyModel { shape: Shape { spans: self.moved_spans(o, dest), ..self.shape }, ..self }.swap_range(i, i + c, dest)
        }
    }

    /// Whether the object at place `i + k` comes out active when the object at
    /// place `i` is activated: its parent (which lies in `i..i + k` when it
    /// lies within the span) comes out active and the object's own flag is set.
    pub open spec fn active_flag(self, i: int, k: int) -> bool
        decreases k,
    {
        if k <= 0 {
            true
        } else {
            let ps = self.shape.parents_of(self.shape.objects[i + k]);
            let parent_active = if ps.len() == 0 {
                true
            } else {
                let j = self.pos_of(ps[0]) - i;
                if 0 <= j < k {
                    self.active_flag(i, j)
                } else {
                    false
                }
            };
            parent_active && self.active_selfs[i + k]
        }
    }

    /// `set_active(o, b)`: the own flag at the place numbered by the object's
    /// identifier becomes `b`; then, when `b` holds and the parent (if any) is
    /// active, the active flags of the span are recomputed top-down, else they
    /// are all cleared.
    pub open spec fn set_active(self, o: ObjectId, b: bool) -> HierarchyModel {
        let s = HierarchyModel { active_selfs: self.active_selfs.update(o.zero_based(), b), ..self };
        let ps = self.shape.parents_of(o);
        let parent_active = if ps.len() == 0 {
            true
        } else {
            s.actives[s.pos_of(ps[0])]
        };
        let i = self.pos_of(o);
        let c = self.count_of(o);
        HierarchyModel {
            actives: if b && parent_active {
                Seq::new(
                    self.len() as nat,
                    |x: int|
                        if i <= x < i + c {
                            s.active_flag(i, x - i)
                        } else {
                            self.actives[x]
                        },
                )
            } else {
                fill_range(self.actives, i, i + c, false)
            },
            ..s
        }
    }

    /// The ancestors of `o` lose the places of `o` and its descendants.
    pub open spec fn detach(self, o: ObjectId) -> HierarchyModel {
        let c = self.count_of(o);
        let ps = self.shape.parents_of(o);
        HierarchyModel {
            shape: Shape {
                spans: Seq::new(
                    self.shape.spans.len(),
                    |k: int|
                        ObjectSpan {
                            index: self.shape.spans[k].index,
                            count: if has_id(ps, k) {
                                (self.shape.spans[k].count - c) as u32
                            } else {
                                self.shape.spans[k].count
                            },
                        },
                ),
                ..self.shape
            },
            ..self
        }
    }

    /// The objects in the span of `o` drop the last `drop` entries of their
    /// parent lists.
    pub open spec fn truncate_block_parents(self, o: ObjectId, drop: int) -> HierarchyModel {
        let i = self.pos_of(o);
        let c = self.count_of(o);
        HierarchyModel {
            shape: Shape {
                parents: Seq::new(
                    self.shape.parents.len(),
                    |k: int|
                        if self.shape.slot_in(k, i, i + c) {
                            self.shape.parents[k].take(self.shape.parents[k].len() - drop)
                        } else {
                            self.shape.parents[k]
                        },
                ),
                ..self.shape
            },
            ..self
        }
    }

    /// The objects in the span of `o` get `p` and its parents appended to their
    /// parent lists, and `p` and its ancestors gain the places of the span.
    pub open spec fn attach(self, o: ObjectId, p: ObjectId) -> HierarchyModel {
        let i = self.pos_of(o);
        let c = self.count_of(o);
        let high = self.shape.parents_of(p);
        HierarchyModel {
            shape: Shape {
                objects: self.shape.objects,
                parents: Seq::new(
                    self.shape.parents.len(),
                    |k: int|
                        if self.shape.slot_in(k, i, i + c) {
                            self.shape.parents[k].push(p) + high
                        } else {
                            self.shape.parents[k]
                        },
                ),
                spans: Seq::new(
                self.shape.spans.len(),
                |k: int|
                    ObjectSpan {
                        index: self.shape.spans[k].index,
                        count: if k == p.zero_based() || has_id(high, k) {
                            (self.shape.spans[k].count + c) as u32
                        } else {
                            self.shape.spans[k].count
                        },
                    },
                ),
            },
            ..self
        }
    }

    /// The state just after the parent lists and spans of a re-parenting are
    /// updated, and the place the span of `o` then moves to.
    pub open spec fn reparent_links(self, o: ObjectId, parent: Option<ObjectId>) -> (
        HierarchyModel,
        int,
    ) {
        let s2 = self.detach(o);
        let s3 = s2.truncate_block_parents(o, self.shape.parents_of(o).len() as int);
        match parent {
            Some(p) => (s3.attach(o, p), s3.pos_of(p) + s3.count_of(p)),
            None => (s3, s3.len()),
        }
    }

    /// The spans and parent lists after `set_parent(o, parent)`, before the
    /// dirty and active flags are updated.
    pub open spec fn reparent(self, o: ObjectId, parent: Option<ObjectId>) -> HierarchyModel {
        let (s4, dest) = self.reparent_links(o, parent);
        s4.move_objects(o, dest)
    }

    /// `set_parent(o, parent)`.
    pub open spec fn set_parent(self, o: ObjectId, parent: Option<ObjectId>) -> HierarchyModel {
        let s5 = self.set_dirty(o).reparent(o, parent);
        let s6 = s5.set_dirty(o);
        s6.set_active(o, s6.active_selfs[s6.pos_of(o)])
    }

    /// `p` may become the parent of `o` by a move of its block: both are in
    /// the hierarchy and `p` is neither `o`, a descendant of `o`, nor an
    /// ancestor of `o`.
    pub open spec fn moves_apart(self, o: ObjectId, parent: Option<ObjectId>) -> bool {
        &&& self.contains_object(o)
        &&& match parent {
            Some(p) => {
                &&& self.contains_object(p)
                &&& !(self.pos_of(o) <= self.pos_of(p) < self.pos_of(o) + self.count_of(o))
                &&& !has_id(self.shape.parents_of(o), p.zero_based())
            },
            None => true,
        }
    }

    /// `p` is an ancestor of `o` whose span ends where the span of `o` ends:
    /// `o` and its descendants come last in the span of `p`.
    pub open spec fn ends_ancestor(self, o: ObjectId, p: ObjectId) -> bool {
        &&& self.contains_object(o)
        &&& self.contains_object(p)
        &&& has_id(self.shape.parents_of(o), p.zero_based())
        &&& self.pos_of(o) + self.count_of(o) == self.pos_of(p) + self.count_of(p)
    }

    /// `p` may become the parent of `o`: either the block of `o` moves under
    /// `p`, or `p` is an ancestor of `o` whose span ends with the block, which
    /// then stays where it is. (Any other ancestor would put the block inside
    /// its own span.)
    pub open spec fn can_reparent(self, o: ObjectId, parent: Option<ObjectId>) -> bool {
        ||| self.moves_apart(o, parent)
        ||| parent matches Some(p) && self.ends_ancestor(o, p)
    }

    /// The span of `o` lies within the ordered lists.
    pub open spec fn span_in_bounds(self, o: ObjectId) -> bool {
        &&& self.has_slot(o)
        &&& self.pos_of(o) + self.count_of(o) <= self.len()
    }

    /// Same shape, names and lengths; only flag values may differ.
    pub open spec fn same_shape(self, other: HierarchyModel) -> bool {
        &&& self.shape.objects == other.shape.objects
        &&& self.shape.spans == other.shape.spans
        &&& self.shape.parents == other.shape.parents
        &&& self.names == other.names
        &&& self.interned == other.interned
        &&& self.dirties.len() == other.dirties.len()
        &&& self.current_frame_dirties.len() == other.current_frame_dirties.len()
        &&& self.actives.len() == other.actives.len()
        &&& self.active_selfs.len() == other.active_selfs.len()
    }
}

/// Changing flag values alone keeps a hierarchy well-formed.
pub proof fn lemma_same_shape_wf(a: HierarchyModel, b: HierarchyModel)
    requires
        a.wf(),
        a.same_shape(b),
    ensures
        b.wf(),
{
    assert(a.shape == b.shape);
}

} // verus!
