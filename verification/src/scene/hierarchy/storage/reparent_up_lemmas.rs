use super::super::object_id::ObjectId;
use super::hierarchy_lemmas::{
    lemma_attach_bounds, lemma_encloses_transitive, lemma_has_id_parent, lemma_parent_suffix,
    lemma_reparent_links_facts, lemma_same_slot,
};
use super::hierarchy_model::{HierarchyModel, Shape};
use super::reparent_lemmas::{gains, lemma_reparent_links, lemma_reparent_shape_only};
use vstd::prelude::*;

verus! {

/// The place `t` holds an ancestor of the place `i` that lies below the place
/// `a`: an ancestor strictly between the object and its new parent.
pub open spec fn between(s: Shape, a: int, i: int, t: int) -> bool {
    a < t && s.encloses(t, i)
}

/// When `o` goes up to an ancestor `p` whose span ends with it, nothing
/// moves: the ancestors between them lose the block, and the block's objects
/// drop them from their parent lists.
#[verifier::spinoff_prover]
#[verifier::rlimit(40)]
proof fn lemma_up_result(m: HierarchyModel, o: ObjectId, p: ObjectId)
    requires
        m.wf(),
        m.ends_ancestor(o, p),
    ensures
        ({
            let s = m.shape;
            let i = m.pos_of(o);
            let c = m.count_of(o);
            let a = m.pos_of(p);
            let d = m.parents_of(o).len();
            let r = m.reparent(o, Some(p));
            &&& a < i
            &&& s.encloses(a, i)
            &&& r.shape.objects == s.objects
            &&& r.shape.spans.len() == s.spans.len()
            &&& r.shape.parents.len() == s.parents.len()
            &&& forall|k: int| 0 <= k < s.spans.len() ==> (#[trigger] r.shape.spans[k]).index == s.spans[k].index
            &&& forall|t: int|
                0 <= t < m.len() ==> #[trigger] r.shape.cnt(t) == if between(s, a, i, t) {
                    s.cnt(t) - c
                } else {
                    s.cnt(t)
                }
            &&& forall|t: int|
                0 <= t < m.len() ==> #[trigger] r.shape.parents_of(s.objects[t]) == if i <= t < i + c {
                    s.parents_of(s.objects[t]).take(s.parents_of(s.objects[t]).len() - d).push(p)
                        + m.parents_of(p)
                } else {
                    s.parents_of(s.objects[t])
                }
            &&& r.dirties == m.dirties
            &&& r.current_frame_dirties == m.current_frame_dirties
            &&& r.actives == m.actives
            &&& r.active_selfs == m.active_selfs
            &&& r.names == m.names
            &&& r.interned == m.interned
        }),
{
    let s = m.shape;
    let i = m.pos_of(o);
    let c = m.count_of(o);
    let a = m.pos_of(p);
    let n = m.len();
    let parent = Some(p);
    lemma_attach_bounds(m, o, p);
    lemma_reparent_links_facts(m, o, parent);
    lemma_reparent_links(m, o, parent);
    assert(s.objects[i] == o);
    assert(s.objects[a] == p);
    lemma_has_id_parent(s, i, a);
    assert(m.parents_of(o) == s.parents_of(s.objects[i]));
    assert(s.encloses(a, i));
    let (s4, dest) = m.reparent_links(o, parent);
    assert(dest == i);
    assert(m.reparent(o, parent) == s4);
    assert forall|k: int| 0 <= k < s.spans.len() implies (#[trigger] s4.shape.spans[k]).index == s.spans[k].index by {
    }
    assert forall|t: int| 0 <= t < n implies #[trigger] s4.shape.cnt(t) == if between(s, a, i, t) {
        s.cnt(t) - c
    } else {
        s.cnt(t)
    } by {
        assert(s4.shape.cnt(t) == s4.shape.spans[s.objects[t].zero_based()].count);
        if s.encloses(t, i) {
            if t < a {
                assert(s.encloses(t, a));
            }
        } else {
            if t == a {
            } else if s.encloses(t, a) {
                lemma_encloses_transitive(s, t, a, i);
            }
        }
        assert(gains(m, parent, t) == (t == a || s.encloses(t, a)));
    }
}

/// Places, spans and parent lists agree after `o` goes up to an ancestor `p`
/// whose span ends with it.
#[verifier::spinoff_prover]
#[verifier::rlimit(60)]
pub proof fn lemma_reparent_up_wf(m: HierarchyModel, o: ObjectId, p: ObjectId)
    requires
        m.wf(),
        m.ends_ancestor(o, p),
    ensures
        m.reparent(o, Some(p)).wf(),
        m.reparent(o, Some(p)).contains_object(o),
{
    let s = m.shape;
    let i = m.pos_of(o);
    let c = m.count_of(o);
    let a = m.pos_of(p);
    let n = m.len();
    let d = m.parents_of(o).len();
    let r = m.reparent(o, Some(p));
    let s5 = r.shape;
    lemma_up_result(m, o, p);
    assert(s.objects[i] == o);
    assert(s.objects[a] == p);
    assert(s.cnt(i) == c);
    assert(s.cnt(a) == m.count_of(p));
    // the ancestors in between end where the block ends
    assert forall|t: int| 0 <= t < n && #[trigger] between(s, a, i, t) implies t + s.cnt(t) == i + c by {
        assert(s.encloses(a, t));
    }
    assert forall|t: int| 0 <= t < n implies s5.has_slot(#[trigger] s5.objects[t]) && s5.pos_of(s5.objects[t]) == t by {
        assert(s.has_slot(s.objects[t]));
        assert(s5.spans[s.objects[t].zero_based()].index == s.spans[s.objects[t].zero_based()].index);
    }
    assert forall|t: int| 0 <= t < n implies 1 <= #[trigger] s5.cnt(t) && t + s5.cnt(t) <= n by {
        assert(1 <= s.cnt(t) && t + s.cnt(t) <= n);
        if between(s, a, i, t) {
            assert(t + s.cnt(t) == i + c);
        }
    }
    // a span after the change lies within the span before it
    assert forall|x: int, q: int| 0 <= x < n && #[trigger] s5.encloses(x, q) implies s.encloses(x, q) by {
        assert(s5.cnt(x) <= s.cnt(x));
    }
    assert forall|x: int, q: int| #![trigger s5.encloses(x, q)]
        q < n && s5.encloses(x, q) implies q + s5.cnt(q) <= x + s5.cnt(x) by {
        assert(s.encloses(x, q));
        assert(q + s.cnt(q) <= x + s.cnt(x));
        if between(s, a, i, x) {
            assert(x + s.cnt(x) == i + c);
            assert(x + s5.cnt(x) == i);
            if between(s, a, i, q) {
                assert(q + s.cnt(q) == i + c);
            } else if q + s.cnt(q) > i {
                assert(s.encloses(q, i));
            }
        }
    }
    assert forall|q: int| 0 <= q < n implies #[trigger] s5.parent_link(q) by {
        lemma_up_link(m, o, p, q);
    }
    assert(s5.wf());
    assert(r.wf_lengths());
    assert forall|t: int| 0 <= t < r.len() implies super::names::symbol_index(#[trigger] r.names[t]) < r.interned.len() by {
        assert(m.names[t] == r.names[t]);
    }
    assert(s5.spans[o.zero_based()].index == i);
}

/// The parent list of what is at place `q` is right after `o` goes up to an
/// ancestor `p` whose span ends with it.
#[verifier::spinoff_prover]
#[verifier::rlimit(60)]
proof fn lemma_up_link(m: HierarchyModel, o: ObjectId, p: ObjectId, q: int)
    requires
        m.wf(),
        m.ends_ancestor(o, p),
        0 <= q < m.len(),
    ensures
        m.reparent(o, Some(p)).shape.parent_link(q),
{
    let s = m.shape;
    let i = m.pos_of(o);
    let c = m.count_of(o);
    let a = m.pos_of(p);
    let n = m.len();
    let d = m.parents_of(o).len();
    let s5 = m.reparent(o, Some(p)).shape;
    lemma_up_result(m, o, p);
    assert(s.objects[i] == o);
    assert(s.objects[a] == p);
    assert(s.cnt(i) == c);
    assert(s.parent_link(q));
    assert forall|x: int| 0 <= x < n && #[trigger] s5.encloses(x, q) implies s.encloses(x, q) by {
        assert(s5.cnt(x) <= s.cnt(x));
    }
    let x = s.objects[q];
    let ps = s.parents_of(x);
    assert(s5.objects[q] == x);
    if q < i || i + c <= q {
        assert(s5.parents_of(x) == ps);
        if ps.len() > 0 {
            let y = ps[0];
            let b = s.pos_of(y);
            assert(s.objects[b] == y);
            assert(s.encloses(b, q));
            assert(s5.pos_of(y) == b);
            if between(s, a, i, b) {
                assert(s.encloses(a, b));
                assert(b + s.cnt(b) == i + c);
                assert(q < i);
            }
            assert(s5.encloses(b, q));
            assert(!(i <= b < i + c)) by {
                if i <= b < i + c {
                    if b > i {
                        assert(s.encloses(i, b));
                    }
                    assert(b + s.cnt(b) <= i + c);
                }
            }
            assert(s5.parents_of(y) == s.parents_of(y));
            assert forall|x2: int| #![trigger s5.encloses(x2, q)] b < x2 implies !s5.encloses(x2, q) by {
                if s5.encloses(x2, q) {
                    assert(x2 < n);
                    assert(s.encloses(x2, q));
                }
            }
        } else {
            assert forall|x2: int| #![trigger s5.encloses(x2, q)] !s5.encloses(x2, q) by {
                if s5.encloses(x2, q) {
                    assert(x2 < n);
                    assert(s.encloses(x2, q));
                }
            }
        }
    } else if q == i {
        let ps5 = s5.parents_of(x);
        assert(ps.take(ps.len() - d) =~= Seq::<ObjectId>::empty());
        assert(ps5 =~= seq![p] + m.parents_of(p));
        assert(ps5[0] == p);
        assert(s5.pos_of(p) == a);
        assert(!between(s, a, i, a));
        assert(s5.cnt(a) == s.cnt(a));
        assert(s5.encloses(a, i));
        assert(!(i <= a < i + c));
        assert(s5.parents_of(p) == m.parents_of(p));
        assert(ps5.drop_first() =~= m.parents_of(p));
        assert forall|x2: int| #![trigger s5.encloses(x2, q)] a < x2 implies !s5.encloses(x2, q) by {
            if s5.encloses(x2, q) {
                assert(x2 < n);
                assert(s.encloses(x2, i));
                assert(between(s, a, i, x2));
                assert(s.encloses(a, x2));
                assert(x2 + s.cnt(x2) == i + c);
            }
        }
    } else {
        assert(s.encloses(i, q));
        lemma_parent_suffix(s, i, q);
        assert(s.parents_of(s.objects[i]) == m.parents_of(o));
        let y = ps[0];
        let b = s.pos_of(y);
        assert(s.objects[b] == y);
        assert(s.encloses(b, q));
        assert(i <= b) by {
            if b < i {
                assert(s.encloses(i, q));
            }
        }
        assert(b < q);
        assert(i <= b < i + c);
        let t = ps.take(ps.len() - d);
        assert(t.len() >= 1);
        let ps5 = s5.parents_of(x);
        assert(ps5 == t.push(p) + m.parents_of(p));
        assert(ps5[0] == t[0]);
        assert(t[0] == y);
        assert(s5.pos_of(y) == b);
        assert(!between(s, a, i, b));
        assert(s5.encloses(b, q));
        let py = s.parents_of(y);
        assert(ps.drop_first() == py);
        assert(py.len() == ps.len() - 1);
        assert(s5.parents_of(y) == py.take(py.len() - d).push(p) + m.parents_of(p));
        assert(py.take(py.len() - d) =~= t.drop_first());
        assert(ps5.drop_first() =~= t.drop_first().push(p) + m.parents_of(p));
        assert forall|x2: int| #![trigger s5.encloses(x2, q)] b < x2 implies !s5.encloses(x2, q) by {
            if s5.encloses(x2, q) {
                assert(x2 < n);
                assert(s.encloses(x2, q));
            }
        }
    }
}


/// After `set_parent(o, Some(p))`, for an ancestor `p` whose span ends with
/// `o`: the object's parents are `p` and the parents of `p`, it keeps its
/// descendants, and it is still the last child of `p`.
pub proof fn lemma_set_parent_up_effect(m: HierarchyModel, o: ObjectId, p: ObjectId)
    requires
        m.wf(),
        m.ends_ancestor(o, p),
    ensures
        m.set_parent(o, Some(p)).len() == m.len(),
        m.set_parent(o, Some(p)).count_of(o) == m.count_of(o),
        m.set_parent(o, Some(p)).parents_of(o) == seq![p] + m.parents_of(p),
        m.set_parent(o, Some(p)).pos_of(o) + m.set_parent(o, Some(p)).count_of(o)
            == m.set_parent(o, Some(p)).pos_of(p) + m.set_parent(o, Some(p)).count_of(p),
{
    let s = m.shape;
    let i = m.pos_of(o);
    let c = m.count_of(o);
    let a = m.pos_of(p);
    let d = m.parents_of(o).len();
    lemma_up_result(m, o, p);
    let m1 = m.set_dirty(o);
    lemma_reparent_shape_only(m, m1, o, Some(p));
    let s5 = m.reparent(o, Some(p)).shape;
    let r = m.set_parent(o, Some(p));
    assert(r.shape == s5);
    assert(s.objects[i] == o);
    assert(s.objects[a] == p);
    assert(s.cnt(i) == c);
    assert(!between(s, a, i, i));
    assert(!between(s, a, i, a));
    assert(s5.cnt(i) == c);
    assert(s5.cnt(a) == s.cnt(a));
    assert(m.parents_of(o) == s.parents_of(s.objects[i]));
    assert(s.parents_of(s.objects[i]).take(s.parents_of(s.objects[i]).len() - d) =~= Seq::<ObjectId>::empty());
    assert(s5.parents_of(o) =~= seq![p] + m.parents_of(p));
}

} // verus!
