use super::super::object_id::ObjectId;
use super::hierarchy_model::{HierarchyModel, Shape};
use super::object_span::ObjectSpan;
use vstd::prelude::*;

verus! {

/// Walks the siblings of an object: the direct children of its parent, in
/// order, found by skipping over each child's span. An object without a
/// parent is its own only sibling.
#[derive(Debug, Clone)]
pub struct ObjectSiblingIter<'a> {
    parent_id: ObjectId,
    object_id: ObjectId,
    sibling_index: usize,
    object_spans: &'a [ObjectSpan],
    objects: &'a [ObjectId],
}

/// Where a sibling walk stands.
pub struct SiblingWalk {
    pub parent_id: ObjectId,
    pub object_id: ObjectId,
    pub sibling_index: int,
    pub spans: Seq<ObjectSpan>,
    pub objects: Seq<ObjectId>,
}

impl SiblingWalk {
    pub open spec fn has_parent(self) -> bool {
        self.parent_id.value() != self.object_id.value()
    }

    pub open spec fn parent_span(self) -> ObjectSpan {
        self.spans[self.parent_id.zero_based()]
    }

    /// The place the walk looks at next.
    pub open spec fn place(self) -> int {
        self.parent_span().index + 1 + self.sibling_index
    }

    /// The walk can go on without running out of bounds: the spans it reads
    /// exist and lie within the ordered objects.
    pub open spec fn well_formed(self) -> bool {
        &&& 0 <= self.sibling_index
        &&& !self.has_parent() ==> self.sibling_index <= 1
        &&& self.has_parent() ==> {
            &&& self.place() <= self.objects.len()
            &&& 0 <= self.parent_id.zero_based() < self.spans.len()
            &&& self.parent_span().index + self.parent_span().count <= self.objects.len()
            &&& forall|t: int|
                0 <= t < self.objects.len() ==> {
                    let k = (#[trigger] self.objects[t]).zero_based();
                    &&& 0 <= k < self.spans.len()
                    &&& t + self.spans[k].count <= self.objects.len()
                }
        }
    }

    /// What `next` gives and where the walk stands afterwards.
    pub open spec fn step(self) -> (Option<ObjectId>, SiblingWalk) {
        if !self.has_parent() {
            if self.sibling_index == 0 {
                (Some(self.object_id), SiblingWalk { sibling_index: 1, ..self })
            } else {
                (None, self)
            }
        } else if self.parent_span().index + self.parent_span().count <= self.place() {
            (None, self)
        } else {
            let object = self.objects[self.place()];
            (
                Some(object),
                SiblingWalk {
                    sibling_index: self.sibling_index + self.spans[object.zero_based()].count,
                    ..self
                },
            )
        }
    }
}

impl<'a> View for ObjectSiblingIter<'a> {
    type V = SiblingWalk;

    closed spec fn view(&self) -> SiblingWalk {
        SiblingWalk {
            parent_id: self.parent_id,
            object_id: self.object_id,
            sibling_index: self.sibling_index as int,
            spans: self.object_spans@,
            objects: self.objects@,
        }
    }
}

impl<'a> ObjectSiblingIter<'a> {
    /// A walk over the children of `parent_id` that starts at its first child,
    /// or, with no parent, over `object_id` alone.
    pub fn new(
        parent_id: Option<ObjectId>,
        object_id: ObjectId,
        object_spans: &'a [ObjectSpan],
        objects: &'a [ObjectId],
    ) -> (r: ObjectSiblingIter<'a>)
        ensures
            r@.parent_id == match parent_id {
                Some(p) => p,
                None => object_id,
            },
            r@.object_id == object_id,
            r@.sibling_index == 0,
            r@.spans == object_spans@,
            r@.objects == objects@,
    {
        let parent_id = match parent_id {
            Some(p) => p,
            None => object_id,
        };
        ObjectSiblingIter { parent_id, object_id, sibling_index: 0, object_spans, objects }
    }

    /// The next sibling, if any.
    pub fn next(&mut self) -> (r: Option<ObjectId>)
        requires
            old(self)@.well_formed(),
        ensures
            (r, final(self)@) == old(self)@.step(),
            final(self)@.well_formed(),
    {
        if self.parent_id.get() == self.object_id.get() {
            if self.sibling_index == 0 {
                self.sibling_index = 1;
                return Some(self.object_id);
            }
            return None;
        }
        let n = self.objects.len();
        let parent_span = self.object_spans[self.parent_id.get_zero_based_u32() as usize];
        let parent_span_index = parent_span.index as usize;
        let parent_span_count = parent_span.count as usize;
        if parent_span_index + parent_span_count <= parent_span_index + 1 + self.sibling_index {
            return None;
        }
        let index = parent_span_index + 1 + self.sibling_index;
        let object = self.objects[index];
        proof {
            assert(0 <= object.zero_based() < self@.spans.len());
        }
        self.sibling_index = self.sibling_index + self.object_spans[object.get_zero_based_u32() as usize].count as usize;
        Some(object)
    }
}


/// The object at place `t` has `parent` as its nearest parent.
pub open spec fn is_child_at(shape: Shape, parent: ObjectId, t: int) -> bool {
    let ps = shape.parents_of(shape.objects[t]);
    ps.len() > 0 && ps[0] == parent
}

/// The walk reads the lists of `shape`, walks the children of a parent in it,
/// and stands at a child of that parent or at the end of its span.
pub open spec fn aligned(shape: Shape, w: SiblingWalk) -> bool {
    let pi = shape.pos_of(w.parent_id);
    let end = pi + shape.cnt(pi);
    &&& w.spans == shape.spans
    &&& w.objects == shape.objects
    &&& w.has_parent()
    &&& shape.contains_object(w.parent_id)
    &&& 0 <= w.sibling_index
    &&& w.place() <= end
    &&& w.place() < end ==> is_child_at(shape, w.parent_id, w.place())
}

/// A walk over the children of a parent gives them one by one, in order, and
/// skips no child: each step gives the child it stands at (or nothing at the
/// end of the parent's span) and moves past that child's descendants to the
/// next child.
pub proof fn lemma_walk_children(shape: Shape, w: SiblingWalk)
    requires
        shape.wf(),
        aligned(shape, w),
    ensures
        ({
            let (r, w2) = w.step();
            let pi = shape.pos_of(w.parent_id);
            let end = pi + shape.cnt(pi);
            &&& w.well_formed()
            &&& aligned(shape, w2)
            &&& (r is Some <==> w.place() < end)
            &&& r is Some ==> r == Some(shape.objects[w.place()]) && is_child_at(
                shape,
                w.parent_id,
                w.place(),
            )
            &&& forall|t: int| w.place() < t < w2.place() ==> !#[trigger] is_child_at(shape, w.parent_id, t)
        }),
{
    let pi = shape.pos_of(w.parent_id);
    let end = pi + shape.cnt(pi);
    let t0 = w.place();
    assert(shape.objects[pi] == w.parent_id);
    assert(w.parent_span() == shape.spans[w.parent_id.zero_based()]);
    assert(end <= shape.len());
    assert(w.well_formed()) by {
        assert forall|t: int| 0 <= t < w.objects.len() implies {
            let k = (#[trigger] w.objects[t]).zero_based();
            &&& 0 <= k < w.spans.len()
            &&& t + w.spans[k].count <= w.objects.len()
        } by {
            assert(shape.cnt(t) == w.spans[w.objects[t].zero_based()].count);
        }
    }
    if t0 < end {
        let x = shape.objects[t0];
        let t1 = t0 + shape.cnt(t0);
        assert(shape.encloses(pi, t0));
        assert(t1 <= end);
        assert(w.step().1.place() == t1);
        assert(shape.parent_link(t0));
        // the nearest parent of what is at `t0` is the parent itself
        let ps0 = shape.parents_of(x);
        assert(shape.pos_of(ps0[0]) == pi) by {
            assert(shape.objects[shape.pos_of(ps0[0])] == ps0[0]);
            assert(shape.pos_of(w.parent_id) == pi);
        }
        assert forall|t: int| t0 < t < t1 implies !#[trigger] is_child_at(shape, w.parent_id, t) by {
            assert(shape.encloses(t0, t));
            assert(shape.parent_link(t));
            let ps = shape.parents_of(shape.objects[t]);
            if ps.len() > 0 && ps[0] == w.parent_id {
                assert(shape.pos_of(ps[0]) == pi);
            }
        }
        if t1 < end {
            assert(shape.encloses(pi, t1));
            assert(shape.parent_link(t1));
            let ps1 = shape.parents_of(shape.objects[t1]);
            assert(ps1.len() > 0) by {
                if ps1.len() == 0 {
                    assert(!shape.encloses(pi, t1));
                }
            }
            let a = shape.pos_of(ps1[0]);
            assert(shape.objects[a] == ps1[0]);
            assert(a == pi) by {
                if a > pi {
                    // an object after the parent that encloses `t1` would enclose `t0` too,
                    // or lie inside the span of what is at `t0`
                    if a < t0 {
                        assert(shape.encloses(a, t0));
                    } else if a == t0 {
                    } else {
                        assert(shape.encloses(t0, a));
                        assert(a + shape.cnt(a) <= t0 + shape.cnt(t0));
                    }
                }
                if a < pi {
                    assert(shape.encloses(pi, t1));
                }
            }
        }
    }
}

/// A walk over the children of a parent, from its first child, is aligned.
pub proof fn lemma_walk_start(shape: Shape, w: SiblingWalk)
    requires
        shape.wf(),
        w.spans == shape.spans,
        w.objects == shape.objects,
        w.has_parent(),
        shape.contains_object(w.parent_id),
        w.sibling_index == 0,
    ensures
        aligned(shape, w),
{
    let pi = shape.pos_of(w.parent_id);
    assert(shape.objects[pi] == w.parent_id);
    let t = pi + 1;
    if t < pi + shape.cnt(pi) {
        assert(shape.encloses(pi, t));
        assert(shape.parent_link(t));
        let ps = shape.parents_of(shape.objects[t]);
        assert(ps.len() > 0);
        let a = shape.pos_of(ps[0]);
        assert(shape.objects[a] == ps[0]);
        assert(a == pi);
    }
}


/// The direct children of `parent` at the places `lo..hi`, in order.
pub open spec fn children_between(shape: Shape, parent: ObjectId, lo: int, hi: int) -> Seq<ObjectId>
    decreases hi - lo,
{
    if lo >= hi {
        Seq::empty()
    } else if is_child_at(shape, parent, lo) {
        seq![shape.objects[lo]] + children_between(shape, parent, lo + 1, hi)
    } else {
        children_between(shape, parent, lo + 1, hi)
    }
}

/// What `next` gives on `fuel` calls, up to the first `None`.
pub open spec fn walk_yields(w: SiblingWalk, fuel: nat) -> Seq<ObjectId>
    decreases fuel,
{
    if fuel == 0 {
        Seq::empty()
    } else {
        match w.step() {
            (Some(o), w2) => seq![o] + walk_yields(w2, (fuel - 1) as nat),
            (None, _) => Seq::empty(),
        }
    }
}

/// Where the walk stands after `fuel` calls of `next`.
pub open spec fn walk_after(w: SiblingWalk, fuel: nat) -> SiblingWalk
    decreases fuel,
{
    if fuel == 0 {
        w
    } else {
        walk_after(w.step().1, (fuel - 1) as nat)
    }
}

/// Places that hold no direct child of the parent add nothing.
proof fn lemma_skip_non_children(shape: Shape, parent: ObjectId, lo: int, mid: int, hi: int)
    requires
        lo <= mid <= hi,
        forall|t: int| lo <= t < mid ==> !#[trigger] is_child_at(shape, parent, t),
    ensures
        children_between(shape, parent, lo, hi) == children_between(shape, parent, mid, hi),
    decreases mid - lo,
{
    if lo < mid {
        assert(!is_child_at(shape, parent, lo));
        lemma_skip_non_children(shape, parent, lo + 1, mid, hi);
    }
}

/// A walk over the children of a parent gives exactly the parent's direct
/// children from where it stands, in order, and then `None` on every later
/// call; enough calls to cover the rest of the parent's span reach the end.
pub proof fn lemma_walk_gives_children(shape: Shape, w: SiblingWalk, fuel: nat)
    requires
        shape.wf(),
        aligned(shape, w),
        fuel >= shape.pos_of(w.parent_id) + shape.cnt(shape.pos_of(w.parent_id)) - w.place(),
    ensures
        ({
            let pi = shape.pos_of(w.parent_id);
            let end = pi + shape.cnt(pi);
            &&& walk_yields(w, fuel) == children_between(shape, w.parent_id, w.place(), end)
            &&& aligned(shape, walk_after(w, fuel))
            &&& walk_after(w, fuel).place() == end
            &&& walk_after(w, fuel).step() == (None::<ObjectId>, walk_after(w, fuel))
        }),
    decreases fuel,
{
    let pi = shape.pos_of(w.parent_id);
    let end = pi + shape.cnt(pi);
    lemma_walk_children(shape, w);
    let (r, w2) = w.step();
    if w.place() == end {
        assert(r is None);
        if fuel > 0 {
            lemma_walk_gives_children(shape, w2, (fuel - 1) as nat);
        }
    } else {
        let t0 = w.place();
        assert(shape.objects[t0].zero_based() == w.objects[t0].zero_based());
        assert(shape.cnt(t0) >= 1);
        assert(w2.place() == t0 + shape.cnt(t0));
        lemma_walk_gives_children(shape, w2, (fuel - 1) as nat);
        lemma_skip_non_children(shape, w.parent_id, t0 + 1, w2.place(), end);
    }
}

/// An object without a parent is its own only sibling: the walk gives it once
/// and then `None` on every later call.
pub proof fn lemma_walk_alone(w: SiblingWalk, fuel: nat)
    requires
        !w.has_parent(),
        w.sibling_index == 0,
        fuel >= 1,
    ensures
        walk_yields(w, fuel) == seq![w.object_id],
        walk_after(w, fuel).step() == (None::<ObjectId>, walk_after(w, fuel)),
    decreases fuel,
{
    let w1 = w.step().1;
    assert(w1.sibling_index == 1);
    lemma_walk_done(w1, (fuel - 1) as nat);
    assert(walk_yields(w, fuel) =~= seq![w.object_id]);
}

proof fn lemma_walk_done(w: SiblingWalk, fuel: nat)
    requires
        !w.has_parent(),
        w.sibling_index == 1,
    ensures
        walk_yields(w, fuel) == Seq::<ObjectId>::empty(),
        walk_after(w, fuel) == w,
        w.step() == (None::<ObjectId>, w),
    decreases fuel,
{
    if fuel > 0 {
        lemma_walk_done(w, (fuel - 1) as nat);
    }
}


/// The siblings of `o`: the direct children of its parent, in order, or `o`
/// alone when it has no parent.
pub open spec fn siblings_of(h: HierarchyModel, o: ObjectId) -> Seq<ObjectId> {
    if h.parents_of(o).len() == 0 {
        seq![o]
    } else {
        let p = h.parents_of(o)[0];
        children_between(h.shape, p, h.pos_of(p) + 1, h.pos_of(p) + h.count_of(p))
    }
}

/// A direct child of the parent within the places is among the children
/// found there.
proof fn lemma_child_found(shape: Shape, parent: ObjectId, lo: int, hi: int, t: int)
    requires
        lo <= t < hi,
        is_child_at(shape, parent, t),
    ensures
        children_between(shape, parent, lo, hi).contains(shape.objects[t]),
    decreases hi - lo,
{
    if lo == t {
        assert(children_between(shape, parent, lo, hi)[0] == shape.objects[t]);
    } else {
        lemma_child_found(shape, parent, lo + 1, hi, t);
        let rest = children_between(shape, parent, lo + 1, hi);
        let k = choose|k: int| 0 <= k < rest.len() && rest[k] == shape.objects[t];
        if is_child_at(shape, parent, lo) {
            assert(children_between(shape, parent, lo, hi)[k + 1] == shape.objects[t]);
        }
    }
}

/// A walk over the siblings of a live object, as `sibling_iter` starts it,
/// gives exactly the object's siblings in order (the object among them), and
/// then `None` on every later call.
pub proof fn lemma_sibling_walk(h: HierarchyModel, o: ObjectId, w: SiblingWalk, fuel: nat)
    requires
        h.wf(),
        h.contains_object(o),
        w.parent_id == if h.parents_of(o).len() == 0 {
            o
        } else {
            h.parents_of(o)[0]
        },
        w.object_id == o,
        w.sibling_index == 0,
        w.spans == h.shape.spans,
        w.objects == h.shape.objects,
        fuel >= h.len(),
    ensures
        walk_yields(w, fuel) == siblings_of(h, o),
        siblings_of(h, o).contains(o),
        walk_after(w, fuel).step() == (None::<ObjectId>, walk_after(w, fuel)),
{
    let s = h.shape;
    let i = h.pos_of(o);
    assert(s.objects[i] == o);
    assert(s.parent_link(i));
    if h.parents_of(o).len() == 0 {
        assert(!w.has_parent());
        lemma_walk_alone(w, fuel);
        assert(siblings_of(h, o)[0] == o);
    } else {
        let p = h.parents_of(o)[0];
        let a = h.pos_of(p);
        assert(s.objects[a] == p);
        assert(s.encloses(a, i));
        assert(p.value() != o.value()) by {
            ObjectId::lemma_value_injective(p, o);
        }
        assert(w.has_parent());
        lemma_walk_start(s, w);
        assert(w.place() == a + 1);
        assert(a + s.cnt(a) <= s.len());
        lemma_walk_gives_children(s, w, fuel);
        assert(is_child_at(s, p, i));
        lemma_child_found(s, p, a + 1, a + s.cnt(a), i);
        assert(s.cnt(a) == h.count_of(p));
    }
}

} // verus!
