use super::super::object_id::ObjectId;
use super::bits::{bits, Bits};
use super::hierarchy_lemmas::{
    lemma_same_slot, lemma_places_distinct, lemma_parent_chain, lemma_parent_chain_distinct, lemma_parent_suffix, lemma_attach_bounds,
    lemma_not_own_parent, lemma_reparent_links_facts,
    lemma_remove_wf,
};
use super::hierarchy_model::{cut, fill_range, has_id, lemma_same_shape_wf, rotate, HierarchyModel, Shape};
use super::reparent_lemmas::lemma_reparent_wf;
use super::reparent_up_lemmas::lemma_reparent_up_wf;
use super::sibling_iter::{aligned, lemma_sibling_walk, lemma_walk_children, lemma_walk_start, siblings_of, walk_yields, ObjectSiblingIter};
use super::names::{interned, symbol_index, symbol_to_usize, Names};
use super::object_span::ObjectSpan;
use string_interner::DefaultSymbol;
use vstd::prelude::*;

verus! {

/// The scene hierarchy: objects in pre-order with their spans, parent lists,
/// dirty and active flags and names.
pub struct HierarchyStorage {
    // ordered
    objects: Vec<ObjectId>,
    object_dirties: Bits,
    object_current_frame_dirties: Bits,
    object_actives: Bits,
    object_active_selfs: Bits,
    object_names: Vec<DefaultSymbol>,
    // unordered
    object_spans: Vec<ObjectSpan>,
    object_parents: Vec<Vec<ObjectId>>,
    // extra
    string_interner: Names,
}

pub open spec fn parent_lists(v: Seq<Vec<ObjectId>>) -> Seq<Seq<ObjectId>> {
    v.map_values(|l: Vec<ObjectId>| l@)
}

impl View for HierarchyStorage {
    type V = HierarchyModel;

    closed spec fn view(&self) -> HierarchyModel {
        HierarchyModel {
            shape: Shape {
                objects: self.objects@,
                spans: self.object_spans@,
                parents: parent_lists(self.object_parents@),
            },
            dirties: bits(self.object_dirties),
            current_frame_dirties: bits(self.object_current_frame_dirties),
            actives: bits(self.object_actives),
            active_selfs: bits(self.object_active_selfs),
            names: self.object_names@,
            interned: interned(self.string_interner),
        }
    }
}

impl HierarchyStorage {
    pub fn new() -> (r: HierarchyStorage)
        ensures
            r@.shape.objects.len() == 0,
            r@.shape.spans.len() == 0,
            r@.interned.len() == 0,
            r@.wf(),
    {
        let r = HierarchyStorage {
            objects: Vec::with_capacity(1024),
            object_dirties: Bits::with_capacity(1024),
            object_current_frame_dirties: Bits::with_capacity(1024),
            object_actives: Bits::with_capacity(1024),
            object_active_selfs: Bits::with_capacity(1024),
            object_names: Vec::with_capacity(1024),
            object_spans: Vec::with_capacity(1024),
            object_parents: Vec::with_capacity(1024),
            string_interner: Names::new(),
        };
        assert(parent_lists(r.object_parents@) =~= Seq::empty());
        r
    }

    pub fn objects(&self) -> (r: &[ObjectId])
        ensures
            r@ == self@.shape.objects,
    {
        self.objects.as_slice()
    }

    /// Whether the object is in the hierarchy.
    pub fn contains(&self, object_id: ObjectId) -> (r: bool)
        ensures
            r == self@.contains_object(object_id),
    {
        let k = object_id.get_zero_based_u32() as usize;
        if k >= self.object_spans.len() {
            return false;
        }
        let place = self.object_spans[k].index as usize;
        if place >= self.objects.len() {
            return false;
        }
        let r = self.objects[place].get() == object_id.get();
        proof {
            ObjectId::lemma_value_injective(self.objects@[place as int], object_id);
        }
        r
    }

    /// The place of the object in the ordered list.
    pub fn index(&self, object_id: ObjectId) -> (r: u32)
        requires
            self@.has_slot(object_id),
        ensures
            r == self@.span_of(object_id).index,
    {
        self.object_spans[object_id.get_zero_based_u32() as usize].index
    }

    fn place(&self, object_id: ObjectId) -> (r: usize)
        requires
            self@.wf(),
            self@.has_place(object_id),
        ensures
            r == self@.pos_of(object_id),
            r < self@.len(),
            r < bits(self.object_dirties).len(),
            r < bits(self.object_current_frame_dirties).len(),
            r < bits(self.object_actives).len(),
            r < bits(self.object_active_selfs).len(),
    {
        self.object_spans[object_id.get_zero_based_u32() as usize].index as usize
    }

    pub fn is_dirty(&self, object_id: ObjectId) -> (r: bool)
        requires
            self@.wf(),
            self@.has_place(object_id),
        ensures
            r == self@.dirties[self@.pos_of(object_id)],
    {
        self.object_dirties.get(self.place(object_id))
    }

    pub fn is_current_frame_dirty(&self, object_id: ObjectId) -> (r: bool)
        requires
            self@.wf(),
            self@.has_place(object_id),
        ensures
            r == self@.current_frame_dirties[self@.pos_of(object_id)],
    {
        self.object_current_frame_dirties.get(self.place(object_id))
    }

    pub fn is_active(&self, object_id: ObjectId) -> (r: bool)
        requires
            self@.wf(),
            self@.has_place(object_id),
        ensures
            r == self@.actives[self@.pos_of(object_id)],
    {
        self.object_actives.get(self.place(object_id))
    }

    pub fn is_active_self(&self, object_id: ObjectId) -> (r: bool)
        requires
            self@.wf(),
            self@.has_place(object_id),
        ensures
            r == self@.active_selfs[self@.pos_of(object_id)],
    {
        self.object_active_selfs.get(self.place(object_id))
    }

    /// The name stored at the place numbered by the object's identifier.
    pub fn name(&self, object_id: ObjectId) -> (r: &str)
        requires
            self@.wf(),
            0 <= object_id.zero_based() < self@.len(),
        ensures
            r@ == self@.interned[symbol_index(self@.names[object_id.zero_based()]) as int],
    {
        let sym = self.object_names[object_id.get_zero_based_u32() as usize];
        match self.string_interner.resolve(sym) {
            Some(s) => s,
            None => {
                proof {
                    assert(symbol_index(self@.names[object_id.zero_based()]) < self@.interned.len());
                }
                ""
            },
        }
    }

    pub fn name_interned(&self, object_id: ObjectId) -> (r: DefaultSymbol)
        requires
            0 <= object_id.zero_based() < self@.names.len(),
        ensures
            r == self@.names[object_id.zero_based()],
    {
        self.object_names[object_id.get_zero_based_u32() as usize]
    }

    /// The nearest parent, if any.
    pub fn parent(&self, object_id: ObjectId) -> (r: Option<ObjectId>)
        requires
            self@.has_slot(object_id),
            self@.shape.parents.len() == self@.shape.spans.len(),
        ensures
            r == if self@.shape.parents_of(object_id).len() == 0 {
                None
            } else {
                Some(self@.shape.parents_of(object_id)[0])
            },
    {
        let ps = &self.object_parents[object_id.get_zero_based_u32() as usize];
        if ps.len() == 0 {
            None
        } else {
            Some(ps[0])
        }
    }

    /// The parents, nearest first.
    pub fn parents(&self, object_id: ObjectId) -> (r: &[ObjectId])
        requires
            self@.has_slot(object_id),
            self@.shape.parents.len() == self@.shape.spans.len(),
        ensures
            r@ == self@.shape.parents_of(object_id),
    {
        self.object_parents[object_id.get_zero_based_u32() as usize].as_slice()
    }

    /// The descendants of the object, in order.
    pub fn children(&self, object_id: ObjectId) -> (r: &[ObjectId])
        requires
            self@.wf(),
            self@.contains_object(object_id),
        ensures
            r@ == self@.shape.objects.subrange(
                self@.pos_of(object_id) + 1,
                self@.pos_of(object_id) + self@.count_of(object_id),
            ),
    {
        let span = self.object_spans[object_id.get_zero_based_u32() as usize];
        assert(self@.shape.cnt(self@.pos_of(object_id)) == self@.count_of(object_id));
        let start = (span.index + 1) as usize;
        let end = (span.index + span.count) as usize;
        &self.objects.as_slice()[start..end]
    }

    /// The object followed by its descendants.
    pub fn object_and_children(&self, object_id: ObjectId) -> (r: &[ObjectId])
        requires
            self@.wf(),
            self@.contains_object(object_id),
        ensures
            r@ == self@.shape.objects.subrange(
                self@.pos_of(object_id),
                self@.pos_of(object_id) + self@.count_of(object_id),
            ),
    {
        let span = self.object_spans[object_id.get_zero_based_u32() as usize];
        assert(self@.shape.cnt(self@.pos_of(object_id)) == self@.count_of(object_id));
        let start = span.index as usize;
        let end = (span.index + span.count) as usize;
        &self.objects.as_slice()[start..end]
    }
}

} // verus!

verus! {

impl HierarchyStorage {
    /// Makes the object and its descendants dirty.
    pub fn set_dirty(&mut self, object_id: ObjectId)
        requires
            old(self)@.wf_lengths(),
            old(self)@.span_in_bounds(object_id),
        ensures
            final(self)@ == old(self)@.set_dirty(object_id),
            old(self)@.wf() ==> final(self)@.wf(),
    {
        let span = self.object_spans[object_id.get_zero_based_u32() as usize];
        let start = span.index as usize;
        let end = (span.index + span.count) as usize;
        self.object_dirties.fill_range(start, end, true);
        proof {
            assert(bits(self.object_dirties) =~= fill_range(
                bits(old(self).object_dirties),
                start as int,
                end as int,
                true,
            ));
            assert(self@ =~= old(self)@.set_dirty(object_id));
            if old(self)@.wf() {
                lemma_same_shape_wf(old(self)@, self@);
            }
        }
    }

    /// The current-frame dirty flags become a copy of the dirty flags.
    pub fn copy_dirty_to_current_frame(&mut self)
        requires
            old(self)@.wf_lengths(),
        ensures
            final(self)@ == (HierarchyModel {
                current_frame_dirties: old(self)@.dirties,
                ..old(self)@
            }),
            old(self)@.wf() ==> final(self)@.wf(),
    {
        self.object_current_frame_dirties.copy_from(&self.object_dirties);
        proof {
            if old(self)@.wf() {
                lemma_same_shape_wf(old(self)@, self@);
            }
        }
    }

    /// All dirty flags are cleared.
    pub fn reset_dirties(&mut self)
        ensures
            final(self)@ == (HierarchyModel {
                dirties: Seq::new(old(self)@.dirties.len(), |i: int| false),
                ..old(self)@
            }),
            old(self)@.wf() ==> final(self)@.wf(),
    {
        self.object_dirties.fill(false);
        proof {
            assert(bits(self.object_dirties) =~= Seq::new(old(self)@.dirties.len(), |i: int| false));
            if old(self)@.wf() {
                lemma_same_shape_wf(old(self)@, self@);
            }
        }
    }

    /// Interns a name: its symbol, with the name appended to the interned
    /// strings when it was not there yet.
    pub fn intern_name(&mut self, name: &str) -> (r: DefaultSymbol)
        requires
            old(self)@.interned.len() < u32::MAX,
        ensures
            final(self)@ == (HierarchyModel {
                interned: if old(self)@.interned.contains(name@) {
                    old(self)@.interned
                } else {
                    old(self)@.interned.push(name@)
                },
                ..old(self)@
            }),
            symbol_index(r) < final(self)@.interned.len(),
            final(self)@.interned[symbol_index(r) as int] == name@,
            old(self)@.wf() ==> final(self)@.wf(),
    {
        let r = self.string_interner.get_or_intern(name);
        proof {
            if old(self)@.wf() {
                assert(self@.wf_names());
                assert(self@.shape == old(self)@.shape);
            }
        }
        r
    }

    /// Stores the symbol of `name` at the place numbered by the object's
    /// identifier.
    #[verifier::spinoff_prover]
    #[verifier::rlimit(30)]
    pub fn set_name(&mut self, object_id: ObjectId, name: &str)
        requires
            old(self)@.interned.len() < u32::MAX,
            0 <= object_id.zero_based() < old(self)@.names.len(),
        ensures
            final(self)@.interned == if old(self)@.interned.contains(name@) {
                old(self)@.interned
            } else {
                old(self)@.interned.push(name@)
            },
            final(self)@.names.len() == old(self)@.names.len(),
            final(self)@.interned[symbol_index(final(self)@.names[object_id.zero_based()]) as int]
                == name@,
            final(self)@ == (HierarchyModel {
                names: old(self)@.names.update(
                    object_id.zero_based(),
                    final(self)@.names[object_id.zero_based()],
                ),
                interned: final(self)@.interned,
                ..old(self)@
            }),
            old(self)@.wf() ==> final(self)@.wf(),
    {
        let sym = self.intern_name(name);
        let k = object_id.get_zero_based_u32() as usize;
        self.object_names.set(k, sym);
        proof {
            assert(self@.names =~= old(self)@.names.update(object_id.zero_based(), sym));
            if old(self)@.wf() {
                assert forall|p: int| 0 <= p < self@.len() implies symbol_index(
                    #[trigger] self@.names[p],
                ) < self@.interned.len() by {
                    if p != k {
                        assert(old(self)@.names[p] == self@.names[p]);
                    }
                }
                assert(self@.wf_names());
                assert(self@.shape == old(self)@.shape);
            }
        }
    }
}

} // verus!

verus! {

impl HierarchyStorage {
    /// Adds the given object to the hierarchy, at the end of the ordered
    /// lists, with no parent, dirty, active and with the empty name. The
    /// object's slot is reused when it has one; else it must be the next slot.
    #[verifier::spinoff_prover]
    #[verifier::rlimit(30)]
    pub fn add(&mut self, object_id: ObjectId)
        requires
            old(self)@.wf(),
            !old(self)@.contains_object(object_id),
            0 <= object_id.zero_based() <= old(self)@.shape.spans.len(),
            old(self)@.len() + 1 < u32::MAX,
            old(self)@.len() + 1 <= usize::MAX / 8,
            old(self)@.interned.len() < u32::MAX,
        ensures
            final(self)@.interned == if old(self)@.interned.contains(""@) {
                old(self)@.interned
            } else {
                old(self)@.interned.push(""@)
            },
            final(self)@.interned[symbol_index(final(self)@.names.last()) as int] == ""@,
            final(self)@ == old(self)@.add(
                object_id,
                final(self)@.names.last(),
                final(self)@.interned,
            ),
            final(self)@.wf(),
            final(self)@.contains_object(object_id),
    {
        let ghost m = old(self)@;
        let object_usize = object_id.get_zero_based_u32() as usize;
        let n = self.objects.len();
        let span = ObjectSpan { index: n as u32, count: 1 };
        if object_usize < self.object_spans.len() {
            self.object_spans.set(object_usize, span);
            self.object_parents[object_usize].clear();
        } else {
            self.object_spans.push(span);
            self.object_parents.push(Vec::with_capacity(4));
        }
        self.objects.push(object_id);
        self.object_dirties.push(true);
        self.object_current_frame_dirties.push(true);
        self.object_actives.push(true);
        self.object_active_selfs.push(true);
        let sym = self.string_interner.get_or_intern_static("");
        self.object_names.push(sym);
        proof {
            let r = self@;
            let z = object_id.zero_based();
            assert(r.shape.parents =~= m.add(object_id, sym, r.interned).shape.parents);
            assert(r =~= m.add(object_id, sym, r.interned));
            // no object of the hierarchy uses the slot of the added one
            assert forall|p: int| 0 <= p < m.len() implies (#[trigger] m.shape.objects[p]).zero_based() != z by {
                if m.shape.objects[p].zero_based() == z {
                    ObjectId::lemma_value_injective(m.shape.objects[p], object_id);
                }
            }
            assert(r.shape.objects[n as int] == object_id);
            assert forall|p: int| 0 <= p < r.len() implies r.has_slot(#[trigger] r.shape.objects[p])
                && r.pos_of(r.shape.objects[p]) == p by {
                if p < m.len() {
                    assert(r.shape.objects[p] == m.shape.objects[p]);
                }
            }
            assert forall|p: int| 0 <= p < r.len() implies 1 <= #[trigger] r.shape.cnt(p) && p + r.shape.cnt(p)
                <= r.len() by {
                if p < m.len() {
                    assert(r.shape.objects[p] == m.shape.objects[p]);
                    assert(m.shape.cnt(p) == r.shape.cnt(p));
                }
            }
            assert forall|p: int, q: int| #![trigger r.shape.encloses(p, q)]
                q < r.len() && r.shape.encloses(p, q) implies q + r.shape.cnt(q) <= p + r.shape.cnt(p) by {
                assert(r.shape.objects[p] == m.shape.objects[p]);
                assert(m.shape.cnt(p) == r.shape.cnt(p));
                if q < m.len() {
                    assert(m.shape.encloses(p, q));
                    assert(r.shape.objects[q] == m.shape.objects[q]);
                }
            }
            assert forall|q: int| 0 <= q < r.len() implies #[trigger] r.shape.parent_link(q) by {
                if q < m.len() {
                    assert(m.shape.parent_link(q));
                    assert(r.shape.objects[q] == m.shape.objects[q]);
                    let ps = m.parents_of(m.shape.objects[q]);
                    assert(r.shape.parents_of(r.shape.objects[q]) == ps);
                    assert forall|p: int| #![trigger r.shape.encloses(p, q)] r.shape.encloses(p, q) implies m.shape.encloses(p, q) by {
                        assert(r.shape.objects[p] == m.shape.objects[p]);
                    }
                    if ps.len() > 0 {
                        let a = m.pos_of(ps[0]);
                        assert(m.shape.objects[a] == ps[0]);
                        assert(r.shape.objects[a] == m.shape.objects[a]);
                        assert(m.shape.objects[a].zero_based() != object_id.zero_based());
                        assert(r.shape.spans[ps[0].zero_based()] == m.shape.spans[ps[0].zero_based()]);
                        assert(r.parents_of(ps[0]) == m.parents_of(ps[0]));
                        assert(r.shape.encloses(a, q));
                        assert(r.shape.contains_object(ps[0]));
                        assert(ps.drop_first() == r.shape.parents_of(ps[0]));
                        assert(forall|p: int| #![trigger r.shape.encloses(p, q)] a < p ==> !r.shape.encloses(p, q));
                    } else {
                        assert(forall|p: int| #![trigger r.shape.encloses(p, q)] !r.shape.encloses(p, q));
                    }
                } else {
                    assert(r.shape.objects[q] == object_id);
                    assert(r.parents_of(object_id).len() == 0);
                    assert forall|p: int| #![trigger r.shape.encloses(p, q)] !r.shape.encloses(p, q) by {
                        if 0 <= p < q {
                            assert(r.shape.objects[p] == m.shape.objects[p]);
                            assert(m.shape.cnt(p) == r.shape.cnt(p));
                        }
                    }
                }
            }
            assert(r.shape.wf());
            assert forall|p: int| 0 <= p < r.len() implies symbol_index(#[trigger] r.names[p])
                < r.interned.len() by {
                if p < m.len() {
                    assert(r.names[p] == m.names[p]);
                }
            }
        }
    }
}

} // verus!

verus! {

/// Removes the places `lo..hi` from a list.
#[verifier::spinoff_prover]
#[verifier::rlimit(30)]
fn cut_vec<T: Copy>(v: &mut Vec<T>, lo: usize, hi: usize)
    requires
        lo <= hi <= old(v)@.len(),
    ensures
        final(v)@ == cut(old(v)@, lo as int, hi as int),
{
    let n = v.len();
    let mut q = hi;
    while q < n
        invariant
            lo <= hi <= q <= n,
            n == old(v)@.len(),
            v@.len() == n,
            forall|t: int|
                0 <= t < n ==> #[trigger] v@[t] == if lo <= t < q - (hi - lo) {
                    old(v)@[t + (hi - lo)]
                } else {
                    old(v)@[t]
                },
        decreases n - q,
    {
        let x = v[q];
        v.set(q - (hi - lo), x);
        q = q + 1;
    }
    v.truncate(n - (hi - lo));
    assert(v@ =~= cut(old(v)@, lo as int, hi as int));
}

/// Removes the bits `lo..hi`.
fn cut_bits(b: &mut Bits, lo: usize, hi: usize)
    requires
        lo <= hi <= bits(*old(b)).len(),
    ensures
        bits(*final(b)) == cut(bits(*old(b)), lo as int, hi as int),
{
    let len = b.len();
    if hi < len {
        b.copy_within(hi, len, lo);
    }
    b.truncate(len - (hi - lo));
    assert(bits(*b) =~= cut(bits(*old(b)), lo as int, hi as int));
}

impl HierarchyStorage {
    /// Every field but the spans is as in `other`.
    spec fn same_but_spans(&self, other: &HierarchyStorage) -> bool {
        &&& self.objects@ == other.objects@
        &&& self.object_dirties == other.object_dirties
        &&& self.object_current_frame_dirties == other.object_current_frame_dirties
        &&& self.object_actives == other.object_actives
        &&& self.object_active_selfs == other.object_active_selfs
        &&& self.object_names@ == other.object_names@
        &&& self.object_parents@ == other.object_parents@
        &&& self.string_interner == other.string_interner
        &&& self.object_spans@.len() == other.object_spans@.len()
    }

    /// Removes the given object and its descendants.
    #[verifier::spinoff_prover]
    #[verifier::rlimit(30)]
    pub fn remove(&mut self, object_id: ObjectId)
        requires
            old(self)@.wf(),
            old(self)@.contains_object(object_id),
        ensures
            final(self)@ == old(self)@.remove(object_id),
            final(self)@.wf(),
    {
        let ghost m = old(self)@;
        let ghost s = m.shape;
        let object_usize = object_id.get_zero_based_u32() as usize;
        let span = self.object_spans[object_usize];
        let ghost i = span.index as int;
        let ghost c = span.count as int;
        proof {
            assert(s.objects[i] == object_id);
            assert(1 <= s.cnt(i) && i + s.cnt(i) <= s.len());
            lemma_parent_chain(s, i);
            lemma_parent_chain_distinct(s, i);
        }
        let ghost ps = m.parents_of(object_id);
        assert(ps == s.parents_of(s.objects[i]));
        self.detach(object_id);
        proof {
            assert forall|k: int| 0 <= k < s.spans.len() implies #[trigger] self.object_spans@[k] == (ObjectSpan {
                index: s.spans[k].index,
                count: if has_id(ps, k) {
                    (s.spans[k].count - c) as u32
                } else {
                    s.spans[k].count
                },
            }) by {}
        }
        // The objects after them move up.
        let n = self.objects.len();
        let start = (span.index + span.count) as usize;
        let mut q: usize = start;
        while q < n
            invariant
                start <= q <= n,
                n == s.len(),
                start == i + c,
                self.same_but_spans(old(self)),
                old(self)@ == m,
                s == m.shape,
                m.wf(),
                i == m.pos_of(object_id),
                c == m.count_of(object_id),
                span.count == c,
                self.object_spans@.len() == s.spans.len(),
                forall|k: int|
                    0 <= k < s.spans.len() ==> #[trigger] self.object_spans@[k] == (ObjectSpan {
                        index: if s.slot_in(k, i + c, q as int) {
                            (s.spans[k].index - c) as u32
                        } else {
                            s.spans[k].index
                        },
                        count: if has_id(ps, k) {
                            (s.spans[k].count - c) as u32
                        } else {
                            s.spans[k].count
                        },
                    }),
            decreases n - q,
        {
            let x = self.objects[q];
            let xz = x.get_zero_based_u32() as usize;
            proof {
                assert(s.objects[q as int] == x);
                assert(s.has_slot(x));
                assert(s.pos_of(x) == q);
                assert(!s.slot_in(xz as int, i + c, q as int));
                assert(self.object_spans@[xz as int].index == q);
                assert forall|k: int| 0 <= k < s.spans.len() && k != xz implies !#[trigger] s.slot_in(k, q as int, q as int + 1) by {
                    if s.slot_in(k, q as int, q as int + 1) {
                        assert(s.spans[k].index == q);
                    }
                }
            }
            let mut x_span = self.object_spans[xz];
            x_span.index = x_span.index - span.count;
            self.object_spans.set(xz, x_span);
            q = q + 1;
        }
        proof {
            assert(self.object_spans@ =~= m.removed_spans(object_id));
        }
        // The object and its descendants leave the ordered lists.
        let lo = span.index as usize;
        cut_vec(&mut self.objects, lo, start);
        cut_bits(&mut self.object_dirties, lo, start);
        cut_bits(&mut self.object_current_frame_dirties, lo, start);
        cut_bits(&mut self.object_actives, lo, start);
        cut_bits(&mut self.object_active_selfs, lo, start);
        cut_vec(&mut self.object_names, lo, start);
        proof {
            assert(self@ =~= m.remove(object_id));
            lemma_remove_wf(m, object_id);
        }
    }
}

} // verus!

verus! {

/// Swaps the places `l..m` and `m..r` of a list: the shorter part is set
/// aside, the longer one slides over, and the shorter one is put back.
#[verifier::spinoff_prover]
#[verifier::rlimit(30)]
fn rotate_vec<T: Copy>(v: &mut Vec<T>, l: usize, m: usize, r: usize)
    requires
        l <= m <= r <= old(v)@.len(),
    ensures
        final(v)@ == rotate(old(v)@, l as int, m as int, r as int),
{
    let ghost s = old(v)@;
    if m - l < r - m {
        let mut temp: Vec<T> = Vec::new();
        let mut y: usize = l;
        while y < m
            invariant
                l <= y <= m,
                l <= m <= r <= s.len(),
                v@ == s,
                temp@ == s.subrange(l as int, y as int),
            decreases m - y,
        {
            assert(s.subrange(l as int, y as int + 1) =~= s.subrange(l as int, y as int).push(s[y as int]));
            temp.push(v[y]);
            y = y + 1;
        }
        let mut x: usize = 0;
        while x < r - m
            invariant
                0 <= x <= r - m,
                l <= m <= r <= s.len(),
                v@.len() == s.len(),
                temp@ == s.subrange(l as int, m as int),
                forall|t: int|
                    0 <= t < s.len() ==> #[trigger] v@[t] == if l <= t < l + x {
                        s[t + (m - l)]
                    } else {
                        s[t]
                    },
            decreases r - m - x,
        {
            let e = v[m + x];
            v.set(l + x, e);
            x = x + 1;
        }
        let mut y: usize = 0;
        while y < m - l
            invariant
                0 <= y <= m - l,
                l <= m <= r <= s.len(),
                m - l < r - m,
                v@.len() == s.len(),
                temp@ == s.subrange(l as int, m as int),
                forall|t: int|
                    0 <= t < s.len() ==> #[trigger] v@[t] == if l <= t < l + (r - m) {
                        s[t + (m - l)]
                    } else if r - (m - l) <= t < r - (m - l) + y {
                        s[t - (r - m)]
                    } else {
                        s[t]
                    },
            decreases m - l - y,
        {
            v.set(r - (m - l) + y, temp[y]);
            y = y + 1;
        }
    } else {
        let mut temp: Vec<T> = Vec::new();
        let mut y: usize = m;
        while y < r
            invariant
                m <= y <= r,
                l <= m <= r <= s.len(),
                v@ == s,
                temp@ == s.subrange(m as int, y as int),
            decreases r - y,
        {
            assert(s.subrange(m as int, y as int + 1) =~= s.subrange(m as int, y as int).push(s[y as int]));
            temp.push(v[y]);
            y = y + 1;
        }
        let mut x: usize = m - l;
        while x > 0
            invariant
                0 <= x <= m - l,
                l <= m <= r <= s.len(),
                r - m <= m - l,
                v@.len() == s.len(),
                temp@ == s.subrange(m as int, r as int),
                forall|t: int|
                    0 <= t < s.len() ==> #[trigger] v@[t] == if l + (r - m) + x <= t < r {
                        s[t - (r - m)]
                    } else {
                        s[t]
                    },
            decreases x,
        {
            let e = v[l + x - 1];
            v.set(l + (r - m) + x - 1, e);
            x = x - 1;
        }
        let mut y: usize = 0;
        while y < r - m
            invariant
                0 <= y <= r - m,
                l <= m <= r <= s.len(),
                r - m <= m - l,
                v@.len() == s.len(),
                temp@ == s.subrange(m as int, r as int),
                forall|t: int|
                    0 <= t < s.len() ==> #[trigger] v@[t] == if l + (r - m) <= t < r {
                        s[t - (r - m)]
                    } else if l <= t < l + y {
                        s[t + (m - l)]
                    } else {
                        s[t]
                    },
            decreases r - m - y,
        {
            v.set(l + y, temp[y]);
            y = y + 1;
        }
    }
    assert(v@ =~= rotate(s, l as int, m as int, r as int));
}

/// The same swap of the bits `l..m` and `m..r`, with `bitvec`'s copies.
fn rotate_bits(b: &mut Bits, l: usize, m: usize, r: usize)
    requires
        l <= m <= r <= bits(*old(b)).len(),
    ensures
        bits(*final(b)) == rotate(bits(*old(b)), l as int, m as int, r as int),
{
    let ghost s = bits(*old(b));
    if l == m || m == r {
        assert(rotate(s, l as int, m as int, r as int) =~= s);
        return;
    }
    if m - l < r - m {
        let temp = b.range_to_bits(l, m);
        b.copy_within(m, r, l);
        b.copy_range_from(r - (m - l), r, &temp);
    } else {
        let temp = b.range_to_bits(m, r);
        b.copy_within(l, m, r - (m - l));
        b.copy_range_from(l, l + (r - m), &temp);
    }
    assert(bits(*b) =~= rotate(s, l as int, m as int, r as int));
}

impl HierarchyStorage {
    /// Swaps the places `index_left..index_mid` and `index_mid..index_right`
    /// of every ordered list.
    #[verifier::spinoff_prover]
    #[verifier::rlimit(30)]
    fn swap_range(&mut self, index_left: usize, index_mid: usize, index_right: usize)
        requires
            old(self)@.wf_lengths(),
            index_left <= index_mid <= index_right <= old(self)@.len(),
        ensures
            final(self)@ == old(self)@.swap_range(
                index_left as int,
                index_mid as int,
                index_right as int,
            ),
            final(self)@.wf_lengths(),
    {
        rotate_vec(&mut self.objects, index_left, index_mid, index_right);
        rotate_bits(&mut self.object_dirties, index_left, index_mid, index_right);
        rotate_bits(&mut self.object_current_frame_dirties, index_left, index_mid, index_right);
        rotate_bits(&mut self.object_actives, index_left, index_mid, index_right);
        rotate_bits(&mut self.object_active_selfs, index_left, index_mid, index_right);
        rotate_vec(&mut self.object_names, index_left, index_mid, index_right);
        proof {
            assert(self@ =~= old(self)@.swap_range(
                index_left as int,
                index_mid as int,
                index_right as int,
            ));
        }
    }
}

} // verus!

verus! {

impl HierarchyStorage {
    /// Moves the given object and its descendants to the destination place:
    /// before the place `destination_index` when that lies before them, or
    /// ending at it when it lies after them.
    #[verifier::spinoff_prover]
    #[verifier::rlimit(30)]
    fn move_objects(&mut self, object_id: ObjectId, destination_index: usize)
        requires
            old(self)@.wf_lengths(),
            old(self)@.shape.wf_positions(),
            old(self)@.has_slot(object_id),
            1 <= old(self)@.count_of(object_id),
            old(self)@.pos_of(object_id) + old(self)@.count_of(object_id) <= old(self)@.len(),
            destination_index <= old(self)@.len(),
            destination_index <= old(self)@.pos_of(object_id) || old(self)@.pos_of(object_id)
                + old(self)@.count_of(object_id) <= destination_index,
        ensures
            final(self)@ == old(self)@.move_objects(object_id, destination_index as int),
            final(self)@.wf_lengths(),
    {
        let ghost m = old(self)@;
        let ghost s = m.shape;
        let span = self.object_spans[object_id.get_zero_based_u32() as usize];
        let span_index = span.index as usize;
        let span_count = span.count as usize;
        let span_index_end = span_index + span_count;
        let dest = destination_index;
        if dest == span_index {
            return;
        }
        if dest < span_index {
            let offset = (span_index - dest) as u32;
            let mut q = span_index;
            while q < span_index_end
                invariant
                    span_index <= q <= span_index_end,
                    span_index == m.pos_of(object_id),
                    span_index_end == span_index + m.count_of(object_id),
                    span_index_end <= s.len(),
                    offset == span_index - dest,
                    dest < span_index,
                    s == m.shape,
                    m.wf_lengths(),
                    s.wf_positions(),
                    self.same_but_spans(old(self)),
                    old(self)@ == m,
                    forall|k: int|
                        0 <= k < s.spans.len() ==> #[trigger] self.object_spans@[k] == (ObjectSpan {
                            index: if s.slot_in(k, span_index as int, q as int) {
                                (s.spans[k].index - offset) as u32
                            } else {
                                s.spans[k].index
                            },
                            count: s.spans[k].count,
                        }),
                decreases span_index_end - q,
            {
                let x = self.objects[q];
                let xz = x.get_zero_based_u32() as usize;
                proof {
                    assert(s.objects[q as int] == x);
                    assert(s.pos_of(x) == q);
                    assert(!s.slot_in(xz as int, span_index as int, q as int));
                    assert forall|k: int| 0 <= k < s.spans.len() && k != xz implies !#[trigger] s.slot_in(
                        k,
                        q as int,
                        q as int + 1,
                    ) by {
                        if s.slot_in(k, q as int, q as int + 1) {
                            assert(s.spans[k].index == q);
                        }
                    }
                }
                let mut x_span = self.object_spans[xz];
                x_span.index = x_span.index - offset;
                self.object_spans.set(xz, x_span);
                q = q + 1;
            }
            let mut q = dest;
            while q < span_index
                invariant
                    dest <= q <= span_index,
                    span_index == m.pos_of(object_id),
                    span_index_end == span_index + m.count_of(object_id),
                    span_index_end <= s.len(),
                    span.count == m.count_of(object_id),
                    offset == span_index - dest,
                    s == m.shape,
                    m.wf_lengths(),
                    s.wf_positions(),
                    self.same_but_spans(old(self)),
                    old(self)@ == m,
                    forall|k: int|
                        0 <= k < s.spans.len() ==> #[trigger] self.object_spans@[k] == (ObjectSpan {
                            index: if s.slot_in(k, span_index as int, span_index_end as int) {
                                (s.spans[k].index - offset) as u32
                            } else if s.slot_in(k, dest as int, q as int) {
                                (s.spans[k].index + span.count) as u32
                            } else {
                                s.spans[k].index
                            },
                            count: s.spans[k].count,
                        }),
                decreases span_index - q,
            {
                let x = self.objects[q];
                let xz = x.get_zero_based_u32() as usize;
                proof {
                    assert(s.objects[q as int] == x);
                    assert(s.pos_of(x) == q);
                    assert(!s.slot_in(xz as int, dest as int, q as int));
                    assert(!s.slot_in(xz as int, span_index as int, span_index_end as int));
                    assert forall|k: int| 0 <= k < s.spans.len() && k != xz implies !#[trigger] s.slot_in(
                        k,
                        q as int,
                        q as int + 1,
                    ) by {
                        if s.slot_in(k, q as int, q as int + 1) {
                            assert(s.spans[k].index == q);
                        }
                    }
                }
                let mut x_span = self.object_spans[xz];
                x_span.index = x_span.index + span.count;
                self.object_spans.set(xz, x_span);
                q = q + 1;
            }
            proof {
                assert(self.object_spans@ =~= m.moved_spans(object_id, dest as int));
                assert(self@ =~= HierarchyModel {
                    shape: Shape { spans: m.moved_spans(object_id, dest as int), ..m.shape },
                    ..m
                });
            }
            self.swap_range(dest, span_index, span_index_end);
        } else {
            let offset = (dest - span_index - span_count) as u32;
            let mut q = span_index;
            while q < span_index_end
                invariant
                    span_index <= q <= span_index_end,
                    span_index == m.pos_of(object_id),
                    span_index_end == span_index + m.count_of(object_id),
                    span_index_end <= dest <= s.len(),
                    offset == dest - span_index_end,
                    s == m.shape,
                    m.wf_lengths(),
                    s.wf_positions(),
                    self.same_but_spans(old(self)),
                    old(self)@ == m,
                    forall|k: int|
                        0 <= k < s.spans.len() ==> #[trigger] self.object_spans@[k] == (ObjectSpan {
                            index: if s.slot_in(k, span_index as int, q as int) {
                                (s.spans[k].index + offset) as u32
                            } else {
                                s.spans[k].index
                            },
                            count: s.spans[k].count,
                        }),
                decreases span_index_end - q,
            {
                let x = self.objects[q];
                let xz = x.get_zero_based_u32() as usize;
                proof {
                    assert(s.objects[q as int] == x);
                    assert(s.pos_of(x) == q);
                    assert(!s.slot_in(xz as int, span_index as int, q as int));
                    assert forall|k: int| 0 <= k < s.spans.len() && k != xz implies !#[trigger] s.slot_in(
                        k,
                        q as int,
                        q as int + 1,
                    ) by {
                        if s.slot_in(k, q as int, q as int + 1) {
                            assert(s.spans[k].index == q);
                        }
                    }
                }
                let mut x_span = self.object_spans[xz];
                x_span.index = x_span.index + offset;
                self.object_spans.set(xz, x_span);
                q = q + 1;
            }
            let mut q = span_index_end;
            while q < dest
                invariant
                    span_index_end <= q <= dest,
                    span_index == m.pos_of(object_id),
                    span_index_end == span_index + m.count_of(object_id),
                    dest <= s.len(),
                    span.count == m.count_of(object_id),
                    offset == dest - span_index_end,
                    s == m.shape,
                    m.wf_lengths(),
                    s.wf_positions(),
                    self.same_but_spans(old(self)),
                    old(self)@ == m,
                    forall|k: int|
                        0 <= k < s.spans.len() ==> #[trigger] self.object_spans@[k] == (ObjectSpan {
                            index: if s.slot_in(k, span_index as int, span_index_end as int) {
                                (s.spans[k].index + offset) as u32
                            } else if s.slot_in(k, span_index_end as int, q as int) {
                                (s.spans[k].index - span.count) as u32
                            } else {
                                s.spans[k].index
                            },
                            count: s.spans[k].count,
                        }),
                decreases dest - q,
            {
                let x = self.objects[q];
                let xz = x.get_zero_based_u32() as usize;
                proof {
                    assert(s.objects[q as int] == x);
                    assert(s.pos_of(x) == q);
                    assert(!s.slot_in(xz as int, span_index_end as int, q as int));
                    assert(!s.slot_in(xz as int, span_index as int, span_index_end as int));
                    assert forall|k: int| 0 <= k < s.spans.len() && k != xz implies !#[trigger] s.slot_in(
                        k,
                        q as int,
                        q as int + 1,
                    ) by {
                        if s.slot_in(k, q as int, q as int + 1) {
                            assert(s.spans[k].index == q);
                        }
                    }
                }
                let mut x_span = self.object_spans[xz];
                x_span.index = x_span.index - span.count;
                self.object_spans.set(xz, x_span);
                q = q + 1;
            }
            proof {
                assert(self.object_spans@ =~= m.moved_spans(object_id, dest as int));
                assert(self@ =~= HierarchyModel {
                    shape: Shape { spans: m.moved_spans(object_id, dest as int), ..m.shape },
                    ..m
                });
            }
            self.swap_range(span_index, span_index_end, dest);
        }
    }
}

} // verus!

verus! {

impl HierarchyStorage {
    /// Sets the object's own active flag, stored at the place numbered by its
    /// identifier, then recomputes the active flags of its span: when the flag
    /// is set and the parent (if any) is active, each object there is active
    /// when its parent is and its own flag (read at its place) is set; else
    /// none is.
    #[verifier::spinoff_prover]
    #[verifier::rlimit(30)]
    pub fn set_active(&mut self, object_id: ObjectId, is_active: bool)
        requires
            old(self)@.wf(),
            old(self)@.contains_object(object_id),
            0 <= object_id.zero_based() < old(self)@.len(),
        ensures
            final(self)@ == old(self)@.set_active(object_id, is_active),
            final(self)@.wf(),
    {
        let ghost m = old(self)@;
        let oz = object_id.get_zero_based_u32() as usize;
        self.object_active_selfs.set(oz, is_active);
        let ghost s = HierarchyModel {
            active_selfs: m.active_selfs.update(oz as int, is_active),
            ..m
        };
        proof {
            assert(self@ =~= s);
            lemma_same_shape_wf(m, s);
        }
        let is_parent_active = match self.parent(object_id) {
            Some(parent) => {
                proof {
                    assert(m.shape.parent_link(m.pos_of(object_id)));
                }
                self.is_active(parent)
            },
            None => true,
        };
        let span = self.object_spans[oz];
        let i = span.index as usize;
        let end = (span.index + span.count) as usize;
        proof {
            assert(m.shape.objects[i as int] == object_id);
            assert(1 <= m.shape.cnt(i as int) && i + m.shape.cnt(i as int) <= m.len());
        }
        if is_active && is_parent_active {
            let mut flags = Bits::with_capacity(end - i);
            flags.push(true);
            let base = span.index;
            let mut q = i + 1;
            while q < end
                invariant
                    i < q <= end,
                    i == m.pos_of(object_id),
                    end == i + m.count_of(object_id),
                    end <= m.len(),
                    base == i,
                    s.shape.objects[i as int] == object_id,
                    self@ == s,
                    s.wf(),
                    s.shape == m.shape,
                    bits(flags) =~= Seq::new((q - i) as nat, |k: int| s.active_flag(i as int, k)),
                decreases end - q,
            {
                let child = self.objects[q];
                proof {
                    assert(s.shape.objects[q as int] == child);
                    assert(s.shape.encloses(i as int, q as int));
                    assert(s.shape.parent_link(q as int));
                }
                let parent_active = match self.parent(child) {
                    Some(parent) => {
                        let parent_index = self.object_spans[parent.get_zero_based_u32() as usize].index;
                        proof {
                            assert(parent_index >= i) by {
                                if parent_index < i {
                                    assert(s.shape.encloses(i as int, q as int));
                                }
                            }
                        }
                        flags.get((parent_index - base) as usize)
                    },
                    None => true,
                };
                let own = self.is_active_self(child);
                flags.push(parent_active && own);
                proof {
                    assert(s.shape.pos_of(child) == q);
                    assert(s.active_flag(i as int, q - i) == (parent_active && own));
                }
                q = q + 1;
            }
            self.object_actives.copy_range_from(i, end, &flags);
            proof {
                assert(bits(self.object_actives) =~= m.set_active(object_id, is_active).actives);
            }
        } else {
            self.object_actives.fill_range(i, end, false);
            proof {
                assert(bits(self.object_actives) =~= m.set_active(object_id, is_active).actives);
            }
        }
        proof {
            assert(self@ =~= m.set_active(object_id, is_active));
            lemma_same_shape_wf(m, self@);
        }
    }
}

} // verus!

verus! {

impl HierarchyStorage {
    /// The ancestors of the object lose the places of it and its descendants.
    #[verifier::spinoff_prover]
    #[verifier::rlimit(30)]
    fn detach(&mut self, object_id: ObjectId)
        requires
            old(self)@.wf(),
            old(self)@.contains_object(object_id),
        ensures
            final(self)@ == old(self)@.detach(object_id),
            final(self).same_but_spans(old(self)),
    {
        let ghost m = old(self)@;
        let ghost s = m.shape;
        let object_usize = object_id.get_zero_based_u32() as usize;
        let span = self.object_spans[object_usize];
        let ghost i = span.index as int;
        let ghost c = span.count as int;
        proof {
            assert(s.objects[i] == object_id);
            assert(1 <= s.cnt(i) && i + s.cnt(i) <= s.len());
            lemma_parent_chain(s, i);
            lemma_parent_chain_distinct(s, i);
        }
        let ghost ps = m.parents_of(object_id);
        assert(ps == s.parents_of(s.objects[i]));
        // The ancestors lose the places of the object and its descendants.
        let n_par = self.object_parents[object_usize].len();
        let mut j: usize = 0;
        while j < n_par
            invariant
                0 <= j <= n_par,
                n_par == ps.len(),
                object_usize == object_id.zero_based(),
                self.same_but_spans(old(self)),
                old(self)@ == m,
                object_usize < self.object_parents@.len(),
                parent_lists(old(self).object_parents@)[object_usize as int] == ps,
                s == m.shape,
                m.wf(),
                span == m.span_of(object_id),
                i == m.pos_of(object_id),
                c == m.count_of(object_id),
                s.objects[i] == object_id,
                self.object_spans@.len() == s.spans.len(),
                forall|jj: int|
                    0 <= jj < ps.len() ==> {
                        let x = #[trigger] ps[jj];
                        &&& s.contains_object(x)
                        &&& s.encloses(s.pos_of(x), i)
                    },
                forall|j1: int, j2: int|
                    0 <= j1 < ps.len() && 0 <= j2 < ps.len() && j1 != j2 ==> (#[trigger] ps[j1]).zero_based()
                        != (#[trigger] ps[j2]).zero_based(),
                forall|k: int|
                    0 <= k < s.spans.len() ==> #[trigger] self.object_spans@[k] == (ObjectSpan {
                        index: s.spans[k].index,
                        count: if has_id(ps.take(j as int), k) {
                            (s.spans[k].count - c) as u32
                        } else {
                            s.spans[k].count
                        },
                    }),
            decreases n_par - j,
        {
            let parent = self.object_parents[object_usize][j];
            let parent_usize = parent.get_zero_based_u32() as usize;
            proof {
                assert(parent_lists(self.object_parents@)[object_usize as int] == self.object_parents@[object_usize as int]@);
                assert(parent == ps[j as int]);
                let a = s.pos_of(parent);
                assert(s.encloses(a, i));
                assert(i + c <= a + s.cnt(a));
                assert(s.objects[a] == parent);
                assert(!has_id(ps.take(j as int), parent_usize as int)) by {
                    if has_id(ps.take(j as int), parent_usize as int) {
                        let jj = choose|jj: int| 0 <= jj < j && (#[trigger] ps.take(j as int)[jj]).zero_based() == parent_usize;
                        assert(ps.take(j as int)[jj] == ps[jj]);
                    }
                }
            }
            let mut ps_span = self.object_spans[parent_usize];
            ps_span.count = ps_span.count - span.count;
            self.object_spans.set(parent_usize, ps_span);
            proof {
                assert forall|k: int| 0 <= k < s.spans.len() implies #[trigger] self.object_spans@[k] == (ObjectSpan {
                    index: s.spans[k].index,
                    count: if has_id(ps.take(j as int + 1), k) {
                        (s.spans[k].count - c) as u32
                    } else {
                        s.spans[k].count
                    },
                }) by {
                    if has_id(ps.take(j as int + 1), k) && k != parent_usize {
                        let jj = choose|jj: int| 0 <= jj < j + 1 && (#[trigger] ps.take(j as int + 1)[jj]).zero_based() == k;
                        assert(ps.take(j as int + 1)[jj] == ps.take(j as int)[jj]);
                    }
                    if has_id(ps.take(j as int), k) {
                        let jj = choose|jj: int| 0 <= jj < j && (#[trigger] ps.take(j as int)[jj]).zero_based() == k;
                        assert(ps.take(j as int + 1)[jj] == ps.take(j as int)[jj]);
                    }
                    if k == parent_usize {
                        assert(ps.take(j as int + 1)[j as int] == parent);
                    }
                }
            }
            j = j + 1;
        }
        assert(ps.take(n_par as int) =~= ps);
        proof {
            assert(self.object_spans@ =~= m.detach(object_id).shape.spans);
            assert(self@ =~= m.detach(object_id));
        }
    }
}

} // verus!

verus! {

impl HierarchyStorage {
    /// The objects in the span of the object drop the last `drop` entries of
    /// their parent lists.
    #[verifier::spinoff_prover]
    #[verifier::rlimit(30)]
    fn truncate_block_parents(&mut self, object_id: ObjectId, drop: usize, Ghost(base): Ghost<HierarchyModel>)
        requires
            base.wf(),
            base.contains_object(object_id),
            old(self)@.shape.objects == base.shape.objects,
            old(self)@.shape.parents == base.shape.parents,
            old(self)@.shape.spans.len() == base.shape.spans.len(),
            old(self)@.pos_of(object_id) == base.pos_of(object_id),
            old(self)@.count_of(object_id) == base.count_of(object_id),
            forall|k: int| 0 <= k < base.shape.spans.len() ==> (#[trigger] old(self)@.shape.spans[k]).index
                == base.shape.spans[k].index,
            drop == base.parents_of(object_id).len(),
        ensures
            final(self)@ == old(self)@.truncate_block_parents(object_id, drop as int),
    {
        let ghost m = old(self)@;
        let ghost s = base.shape;
        let span = self.object_spans[object_id.get_zero_based_u32() as usize];
        proof {
            assert(s.objects[base.pos_of(object_id)] == object_id);
            assert(1 <= s.cnt(base.pos_of(object_id)) && base.pos_of(object_id) + s.cnt(base.pos_of(object_id)) <= s.len());
        }
        let i = span.index as usize;
        let end = (span.index + span.count) as usize;
        let mut q = i;
        while q < end
            invariant
                i <= q <= end,
                m.count_of(object_id) == base.count_of(object_id),
                m.pos_of(object_id) == base.pos_of(object_id),
                i == m.pos_of(object_id),
                end == i + m.count_of(object_id),
                end <= s.len(),
                s.objects[i as int] == object_id,
                base.wf(),
                s == base.shape,
                drop == base.parents_of(object_id).len(),
                self.objects@ == m.shape.objects,
                m.shape.objects == s.objects,
                m.shape.parents == s.parents,
                self.object_spans@ == m.shape.spans,
                m.shape.spans.len() == s.spans.len(),
                forall|k: int| 0 <= k < s.spans.len() ==> (#[trigger] m.shape.spans[k]).index == s.spans[k].index,
                self.object_parents@.len() == s.parents.len(),
                self.object_dirties == old(self).object_dirties,
                self.object_current_frame_dirties == old(self).object_current_frame_dirties,
                self.object_actives == old(self).object_actives,
                self.object_active_selfs == old(self).object_active_selfs,
                self.object_names@ == old(self).object_names@,
                self.string_interner == old(self).string_interner,
                forall|k: int|
                    0 <= k < s.parents.len() ==> #[trigger] parent_lists(self.object_parents@)[k] == if m.shape.slot_in(
                        k,
                        i as int,
                        q as int,
                    ) {
                        s.parents[k].take(s.parents[k].len() - drop)
                    } else {
                        s.parents[k]
                    },
            decreases end - q,
        {
            let x = self.objects[q];
            let xz = x.get_zero_based_u32() as usize;
            proof {
                assert(s.objects[q as int] == x);
                assert(s.pos_of(x) == q);
                assert(!m.shape.slot_in(xz as int, i as int, q as int));
                assert(parent_lists(self.object_parents@)[xz as int] == self.object_parents@[xz as int]@);
                if q > i {
                    assert(s.encloses(i as int, q as int));
                    lemma_parent_suffix(s, i as int, q as int);
                }
                assert forall|k: int| 0 <= k < s.spans.len() && k != xz implies !#[trigger] m.shape.slot_in(
                    k,
                    q as int,
                    q as int + 1,
                ) by {
                    if m.shape.slot_in(k, q as int, q as int + 1) {
                        assert(s.spans[k].index == q);
                    }
                }
            }
            let len = self.object_parents[xz].len();
            proof {
                assert(m.shape.slot_in(xz as int, i as int, q as int + 1));
                assert(len == s.parents[xz as int].len());
            }
            let ghost before = self.object_parents@;
            self.object_parents[xz].truncate(len - drop);
            proof {
                assert forall|k: int| 0 <= k < s.parents.len() implies #[trigger] parent_lists(self.object_parents@)[k]
                    == if m.shape.slot_in(k, i as int, q as int + 1) {
                    s.parents[k].take(s.parents[k].len() - drop)
                } else {
                    s.parents[k]
                } by {
                    assert(parent_lists(self.object_parents@)[k] == self.object_parents@[k]@);
                    if k != xz {
                        assert(m.shape.slot_in(k, i as int, q as int + 1) == m.shape.slot_in(k, i as int, q as int));
                        assert(self.object_parents@[k] == before[k]);
                        assert(parent_lists(before)[k] == before[k]@);
                    }
                }
            }
            q = q + 1;
        }
        proof {
            assert(parent_lists(self.object_parents@) =~= m.truncate_block_parents(object_id, drop as int).shape.parents);
            assert(self@ =~= m.truncate_block_parents(object_id, drop as int));
        }
    }
}

} // verus!

verus! {

impl HierarchyStorage {
    /// The objects in the span of the object get the new parent and its
    /// parents appended to their parent lists; the new parent and its
    /// ancestors gain the span's places.
    #[verifier::spinoff_prover]
    #[verifier::rlimit(30)]
    fn attach(&mut self, object_id: ObjectId, parent: ObjectId, Ghost(base): Ghost<HierarchyModel>)
        requires
            base.wf(),
            base.can_reparent(object_id, Some(parent)),
            old(self)@ == base.detach(object_id).truncate_block_parents(
                object_id,
                base.parents_of(object_id).len() as int,
            ),
        ensures
            final(self)@ == old(self)@.attach(object_id, parent),
    {
        let ghost m = old(self)@;
        let ghost s = base.shape;
        let ghost hp = base.parents_of(parent);
        let ghost i0 = base.pos_of(object_id);
        let ghost a0 = base.pos_of(parent);
        proof {
            lemma_attach_bounds(base, object_id, parent);
            assert(s.objects[i0] == object_id);
            assert(s.objects[a0] == parent);
            assert(1 <= s.cnt(i0) && i0 + s.cnt(i0) <= s.len());
            lemma_parent_chain(s, a0);
            lemma_parent_chain_distinct(s, a0);
            assert(hp == s.parents_of(s.objects[a0]));
            assert(!m.shape.slot_in(parent.zero_based(), i0, i0 + base.count_of(object_id)));
            assert(m.parents_of(parent) == hp);
            assert(m.pos_of(object_id) == i0);
            lemma_parent_chain(s, i0);
            assert(base.parents_of(object_id) == s.parents_of(s.objects[i0]));
            assert(!has_id(base.parents_of(object_id), object_id.zero_based())) by {
                if has_id(base.parents_of(object_id), object_id.zero_based()) {
                    let jj = choose|jj: int| 0 <= jj < base.parents_of(object_id).len() && (#[trigger] base.parents_of(object_id)[jj]).zero_based() == object_id.zero_based();
                    lemma_same_slot(base.parents_of(object_id)[jj], object_id);
                }
            }
            assert(m.count_of(object_id) == base.count_of(object_id));
        }
        let pz = parent.get_zero_based_u32() as usize;
        let hn = self.object_parents[pz].len();
        let mut high: Vec<ObjectId> = Vec::new();
        let mut j: usize = 0;
        while j < hn
            invariant
                0 <= j <= hn,
                pz == parent.zero_based(),
                pz < self.object_parents@.len(),
                self@ == m,
                hn == hp.len(),
                m.parents_of(parent) == hp,
                high@ == hp.take(j as int),
            decreases hn - j,
        {
            proof {
                assert(parent_lists(self.object_parents@)[pz as int] == self.object_parents@[pz as int]@);
                assert(hp.take(j as int + 1) =~= hp.take(j as int).push(hp[j as int]));
            }
            high.push(self.object_parents[pz][j]);
            j = j + 1;
        }
        proof {
            assert(hp.take(hn as int) =~= hp);
        }
        let oz = object_id.get_zero_based_u32() as usize;
        let span = self.object_spans[oz];
        let i = span.index as usize;
        let end = (span.index + span.count) as usize;
        let mut q = i;
        while q < end
            invariant
                i <= q <= end,
                i == m.pos_of(object_id),
                end == i + m.count_of(object_id),
                end <= s.len(),
                s == base.shape,
                base.wf(),
                m.shape.objects == s.objects,
                m.shape.spans.len() == s.spans.len(),
                m.shape.parents.len() == s.spans.len(),
                forall|k: int| 0 <= k < s.spans.len() ==> (#[trigger] m.shape.spans[k]).index == s.spans[k].index,
                high@ == hp,
                hn == hp.len(),
                self.objects@ == m.shape.objects,
                self.object_spans@ == m.shape.spans,
                self.object_parents@.len() == s.spans.len(),
                self.object_dirties == old(self).object_dirties,
                self.object_current_frame_dirties == old(self).object_current_frame_dirties,
                self.object_actives == old(self).object_actives,
                self.object_active_selfs == old(self).object_active_selfs,
                self.object_names@ == old(self).object_names@,
                self.string_interner == old(self).string_interner,
                old(self)@ == m,
                forall|k: int|
                    0 <= k < s.spans.len() ==> #[trigger] parent_lists(self.object_parents@)[k] == if m.shape.slot_in(
                        k,
                        i as int,
                        q as int,
                    ) {
                        m.shape.parents[k].push(parent) + hp
                    } else {
                        m.shape.parents[k]
                    },
            decreases end - q,
        {
            let x = self.objects[q];
            let xz = x.get_zero_based_u32() as usize;
            proof {
                assert(s.objects[q as int] == x);
                assert(s.pos_of(x) == q);
                assert(!m.shape.slot_in(xz as int, i as int, q as int));
                assert(m.shape.slot_in(xz as int, i as int, q as int + 1));
                assert forall|k: int| 0 <= k < s.spans.len() && k != xz implies !#[trigger] m.shape.slot_in(
                    k,
                    q as int,
                    q as int + 1,
                ) by {
                    if m.shape.slot_in(k, q as int, q as int + 1) {
                        assert(s.spans[k].index == q);
                    }
                }
                assert(parent_lists(self.object_parents@)[xz as int] == self.object_parents@[xz as int]@);
            }
            let ghost before = self.object_parents@;
            self.object_parents[xz].push(parent);
            let mut j: usize = 0;
            while j < hn
                invariant
                    0 <= j <= hn,
                    hn == hp.len(),
                    high@ == hp,
                    xz < self.object_parents@.len(),
                    self.object_parents@.len() == before.len(),
                    forall|k: int| 0 <= k < before.len() && k != xz ==> self.object_parents@[k] == before[k],
                    self.object_parents@[xz as int]@ == before[xz as int]@.push(parent) + hp.take(j as int),
                    self.objects@ == m.shape.objects,
                    self.object_spans@ == m.shape.spans,
                    self.object_dirties == old(self).object_dirties,
                    self.object_current_frame_dirties == old(self).object_current_frame_dirties,
                    self.object_actives == old(self).object_actives,
                    self.object_active_selfs == old(self).object_active_selfs,
                    self.object_names@ == old(self).object_names@,
                    self.string_interner == old(self).string_interner,
                decreases hn - j,
            {
                proof {
                    assert(before[xz as int]@.push(parent) + hp.take(j as int + 1) =~= (before[xz as int]@.push(parent)
                        + hp.take(j as int)).push(hp[j as int]));
                }
                self.object_parents[xz].push(high[j]);
                j = j + 1;
            }
            proof {
                assert(hp.take(hn as int) =~= hp);
                assert forall|k: int| 0 <= k < s.spans.len() implies #[trigger] parent_lists(self.object_parents@)[k]
                    == if m.shape.slot_in(k, i as int, q as int + 1) {
                    m.shape.parents[k].push(parent) + hp
                } else {
                    m.shape.parents[k]
                } by {
                    assert(parent_lists(self.object_parents@)[k] == self.object_parents@[k]@);
                    assert(parent_lists(before)[k] == before[k]@);
                    if k != xz {
                        assert(m.shape.slot_in(k, i as int, q as int + 1) == m.shape.slot_in(k, i as int, q as int));
                    }
                }
            }
            q = q + 1;
        }
        proof {
            assert(parent_lists(self.object_parents@) =~= m.attach(object_id, parent).shape.parents);
        }
        // The new parent and its ancestors gain the places.
        let mut p_span = self.object_spans[pz];
        p_span.count = p_span.count + span.count;
        self.object_spans.set(pz, p_span);
        let mut j: usize = 0;
        while j < hn
            invariant
                0 <= j <= hn,
                hn == hp.len(),
                high@ == hp,
                pz == parent.zero_based(),
                span.count == m.count_of(object_id),
                self.object_spans@.len() == m.shape.spans.len(),
                m.shape.spans.len() == s.spans.len(),
                forall|jj: int| 0 <= jj < hp.len() ==> #[trigger] base.detach(object_id).count_of(hp[jj]) + base.count_of(object_id) <= s.len(),
                m.count_of(object_id) == base.count_of(object_id),
                forall|jj: int| 0 <= jj < hp.len() ==> s.contains_object(#[trigger] hp[jj]),
                forall|jj: int| 0 <= jj < hp.len() ==> (#[trigger] hp[jj]).zero_based() != parent.zero_based(),
                forall|j1: int, j2: int|
                    0 <= j1 < hp.len() && 0 <= j2 < hp.len() && j1 != j2 ==> (#[trigger] hp[j1]).zero_based()
                        != (#[trigger] hp[j2]).zero_based(),
                m.shape.spans == base.detach(object_id).shape.spans,
                s.len() <= u32::MAX,
                forall|k: int|
                    0 <= k < s.spans.len() ==> #[trigger] self.object_spans@[k] == (ObjectSpan {
                        index: m.shape.spans[k].index,
                        count: if k == pz || has_id(hp.take(j as int), k) {
                            (m.shape.spans[k].count + span.count) as u32
                        } else {
                            m.shape.spans[k].count
                        },
                    }),
                parent_lists(self.object_parents@) == m.attach(object_id, parent).shape.parents,
                self.objects@ == m.shape.objects,
                self.object_dirties == old(self).object_dirties,
                self.object_current_frame_dirties == old(self).object_current_frame_dirties,
                self.object_actives == old(self).object_actives,
                self.object_active_selfs == old(self).object_active_selfs,
                self.object_names@ == old(self).object_names@,
                self.string_interner == old(self).string_interner,
            decreases hn - j,
        {
            let h = high[j];
            let hz = h.get_zero_based_u32() as usize;
            proof {
                assert(h == hp[j as int]);
                assert(s.has_slot(h));
                assert(!has_id(hp.take(j as int), hz as int)) by {
                    if has_id(hp.take(j as int), hz as int) {
                        let jj = choose|jj: int| 0 <= jj < j && (#[trigger] hp.take(j as int)[jj]).zero_based() == hz;
                        assert(hp.take(j as int)[jj] == hp[jj]);
                    }
                }
                assert(base.detach(object_id).count_of(hp[j as int]) + base.count_of(object_id) <= s.len());
                assert(m.shape.spans[hz as int].count + span.count <= s.len());
            }
            let mut h_span = self.object_spans[hz];
            h_span.count = h_span.count + span.count;
            self.object_spans.set(hz, h_span);
            proof {
                assert forall|k: int| 0 <= k < s.spans.len() implies #[trigger] self.object_spans@[k] == (ObjectSpan {
                    index: m.shape.spans[k].index,
                    count: if k == pz || has_id(hp.take(j as int + 1), k) {
                        (m.shape.spans[k].count + span.count) as u32
                    } else {
                        m.shape.spans[k].count
                    },
                }) by {
                    if has_id(hp.take(j as int + 1), k) && k != hz {
                        let jj = choose|jj: int| 0 <= jj < j + 1 && (#[trigger] hp.take(j as int + 1)[jj]).zero_based() == k;
                        assert(hp.take(j as int + 1)[jj] == hp.take(j as int)[jj]);
                    }
                    if has_id(hp.take(j as int), k) {
                        let jj = choose|jj: int| 0 <= jj < j && (#[trigger] hp.take(j as int)[jj]).zero_based() == k;
                        assert(hp.take(j as int + 1)[jj] == hp.take(j as int)[jj]);
                    }
                    if k == hz {
                        assert(hp.take(j as int + 1)[j as int] == h);
                    }
                }
            }
            j = j + 1;
        }
        proof {
            assert(hp.take(hn as int) =~= hp);
            assert(self.object_spans@ =~= m.attach(object_id, parent).shape.spans);
            assert(self@ =~= m.attach(object_id, parent));
        }
    }
}

} // verus!

verus! {

impl HierarchyStorage {
    /// Sets the parent of the given object and re-orders the objects: the
    /// object and its descendants move to the end of the new parent's span (or
    /// to the end of the lists, for no parent), become dirty, and get their
    /// active flags recomputed from the object's own flag. The new parent may
    /// also be an ancestor whose span already ends with the object (its
    /// current parent, when the object is the last child): then nothing moves
    /// and the ancestors in between lose the object.
    #[verifier::spinoff_prover]
    #[verifier::rlimit(30)]
    pub fn set_parent(&mut self, object_id: ObjectId, parent_id: Option<ObjectId>)
        requires
            old(self)@.wf(),
            old(self)@.can_reparent(object_id, parent_id),
            0 <= object_id.zero_based() < old(self)@.len(),
        ensures
            final(self)@ == old(self)@.set_parent(object_id, parent_id),
            final(self)@.wf(),
    {
        let ghost m0 = old(self)@;
        proof {
            assert(m0.shape.objects[m0.pos_of(object_id)] == object_id);
            assert(m0.pos_of(object_id) + m0.shape.cnt(m0.pos_of(object_id)) <= m0.len());
        }
        self.set_dirty(object_id);
        let ghost m1 = self@;
        proof {
            assert(m1.shape == m0.shape);
            lemma_reparent_links_facts(m1, object_id, parent_id);
            lemma_not_own_parent(m1, object_id);
        }
        let oz = object_id.get_zero_based_u32() as usize;
        let parent_count = self.object_parents[oz].len();
        proof {
            assert(parent_lists(self.object_parents@)[oz as int] == self.object_parents@[oz as int]@);
        }
        self.detach(object_id);
        self.truncate_block_parents(object_id, parent_count, Ghost(m1));
        let dest = match parent_id {
            Some(parent) => {
                let pz = parent.get_zero_based_u32() as usize;
                let prev = self.object_spans[pz];
                proof {
                    lemma_attach_bounds(m1, object_id, parent);
                    assert(m1.shape.objects[m1.pos_of(parent)] == parent);
                    assert(m1.pos_of(parent) + m1.shape.cnt(m1.pos_of(parent)) <= m1.len());
                }
                self.attach(object_id, parent, Ghost(m1));
                (prev.index + prev.count) as usize
            },
            None => self.objects.len(),
        };
        proof {
            assert(self@ == m1.reparent_links(object_id, parent_id).0);
            assert(dest == m1.reparent_links(object_id, parent_id).1);
        }
        self.move_objects(object_id, dest);
        proof {
            assert(self@ == m1.reparent(object_id, parent_id));
            if m1.moves_apart(object_id, parent_id) {
                lemma_reparent_wf(m1, object_id, parent_id);
            } else {
                lemma_reparent_up_wf(m1, object_id, parent_id.unwrap());
            }
        }
        self.set_dirty(object_id);
        let is_active_self = self.is_active_self(object_id);
        self.set_active(object_id, is_active_self);
    }
}

} // verus!

verus! {

impl HierarchyStorage {
    /// A walk over the siblings of the object: the children of its parent from
    /// the first one, or the object alone when it has no parent.
    pub fn sibling_iter(&self, object_id: ObjectId) -> (r: ObjectSiblingIter<'_>)
        requires
            self@.wf(),
            self@.contains_object(object_id),
        ensures
            r@.parent_id == if self@.parents_of(object_id).len() == 0 {
                object_id
            } else {
                self@.parents_of(object_id)[0]
            },
            r@.object_id == object_id,
            r@.sibling_index == 0,
            r@.spans == self@.shape.spans,
            r@.objects == self@.shape.objects,
            r@.well_formed(),
            r@.has_parent() ==> aligned(self@.shape, r@),
            forall|fuel: nat| fuel >= self@.len() ==> #[trigger] walk_yields(r@, fuel) == siblings_of(self@, object_id),
    {
        let parent = self.parent(object_id);
        let r = ObjectSiblingIter::new(parent, object_id, self.object_spans.as_slice(), self.objects.as_slice());
        proof {
            assert forall|fuel: nat| fuel >= self@.len() implies #[trigger] walk_yields(r@, fuel) == siblings_of(self@, object_id) by {
                lemma_sibling_walk(self@, object_id, r@, fuel);
            }
            let s = self@.shape;
            let i = self@.pos_of(object_id);
            assert(s.objects[i] == object_id);
            assert(s.parent_link(i));
            if r@.has_parent() {
                let p = self@.parents_of(object_id)[0];
                assert(s.objects[s.pos_of(p)] == p);
                lemma_walk_start(s, r@);
                lemma_walk_children(s, r@);
            }
        }
        r
    }

    /// A walk over the direct children of the object, or `None` when it has
    /// none.
    pub fn direct_children_iter(&self, object_id: ObjectId) -> (r: Option<ObjectSiblingIter<'_>>)
        requires
            self@.wf(),
            self@.contains_object(object_id),
        ensures
            self@.count_of(object_id) < 2 ==> r is None,
            self@.count_of(object_id) >= 2 ==> r is Some,
            r is Some ==> {
                let it = r.unwrap();
                &&& it@.parent_id == object_id
                &&& it@.object_id == self@.shape.objects[self@.pos_of(object_id) + 1]
                &&& it@.sibling_index == 0
                &&& it@.well_formed()
                &&& aligned(self@.shape, it@)
            },
    {
        let span = self.object_spans[object_id.get_zero_based_u32() as usize];
        if span.count < 2 {
            None
        } else {
            proof {
                assert(self@.shape.objects[span.index as int] == object_id);
                assert(self@.shape.cnt(span.index as int) == span.count);
            }
            let first = self.objects[span.index as usize + 1];
            let r = ObjectSiblingIter::new(
                Some(object_id),
                first,
                self.object_spans.as_slice(),
                self.objects.as_slice(),
            );
            proof {
                let s = self@.shape;
                let i = span.index as int;
                lemma_places_distinct(s, i, i + 1);
                lemma_walk_start(s, r@);
                lemma_walk_children(s, r@);
            }
            Some(r)
        }
    }
}

} // verus!
