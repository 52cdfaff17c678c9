use super::super::object_id::ObjectId;
use super::hierarchy_model::{cut, has_id, HierarchyModel, Shape};
use vstd::prelude::*;

verus! {

/// Identifiers with the same zero-based number are the same identifier.
pub proof fn lemma_same_slot(a: ObjectId, b: ObjectId)
    requires
        a.zero_based() == b.zero_based(),
    ensures
        a == b,
{
    ObjectId::lemma_value_injective(a, b);
}

/// The object at a place holds that place: two places hold different objects.
pub proof fn lemma_places_distinct(s: Shape, p: int, q: int)
    requires
        s.wf(),
        0 <= p < s.len(),
        0 <= q < s.len(),
        p != q,
    ensures
        s.objects[p] != s.objects[q],
        s.objects[p].zero_based() != s.objects[q].zero_based(),
{
    assert(s.pos_of(s.objects[p]) == p);
    assert(s.pos_of(s.objects[q]) == q);
}

/// The parent list of the object at place `q` lists, nearest first, the
/// objects that enclose it: each is in the hierarchy, encloses `q`, and lies
/// before the ones listed earlier; every object that encloses `q` is listed.
pub proof fn lemma_parent_chain(s: Shape, q: int)
    requires
        s.wf(),
        0 <= q < s.len(),
    ensures
        forall|j: int|
            0 <= j < s.parents_of(s.objects[q]).len() ==> {
                let x = #[trigger] s.parents_of(s.objects[q])[j];
                &&& s.contains_object(x)
                &&& s.encloses(s.pos_of(x), q)
            },
        forall|j1: int, j2: int|
            0 <= j1 < j2 < s.parents_of(s.objects[q]).len() ==> s.pos_of(
                #[trigger] s.parents_of(s.objects[q])[j1],
            ) > s.pos_of(#[trigger] s.parents_of(s.objects[q])[j2]),
        forall|p: int|
            #![trigger s.encloses(p, q)]
            s.encloses(p, q) ==> exists|j: int|
                0 <= j < s.parents_of(s.objects[q]).len() && #[trigger] s.parents_of(
                    s.objects[q],
                )[j] == s.objects[p],
    decreases q,
{
    assert(s.parent_link(q));
    let ps = s.parents_of(s.objects[q]);
    if ps.len() > 0 {
        let a = s.pos_of(ps[0]);
        assert(s.objects[a] == ps[0]);
        lemma_parent_chain(s, a);
        let pa = s.parents_of(s.objects[a]);
        assert(ps.drop_first() == pa);
        assert forall|j: int| 0 <= j < ps.len() implies {
            let x = #[trigger] ps[j];
            &&& s.contains_object(x)
            &&& s.encloses(s.pos_of(x), q)
        } by {
            if j > 0 {
                assert(ps[j] == pa[j - 1]);
                let x = ps[j];
                assert(s.encloses(s.pos_of(x), a));
                assert(a + s.cnt(a) <= s.pos_of(x) + s.cnt(s.pos_of(x)));
            }
        }
        assert forall|j1: int, j2: int| 0 <= j1 < j2 < ps.len() implies s.pos_of(#[trigger] ps[j1])
            > s.pos_of(#[trigger] ps[j2]) by {
            assert(ps[j2] == pa[j2 - 1]);
            if j1 > 0 {
                assert(ps[j1] == pa[j1 - 1]);
            } else {
                assert(s.encloses(s.pos_of(pa[j2 - 1]), a));
            }
        }
        assert forall|p: int| #![trigger s.encloses(p, q)] s.encloses(p, q) implies exists|j: int|
            0 <= j < ps.len() && #[trigger] ps[j] == s.objects[p] by {
            if p == a {
                assert(ps[0] == s.objects[p]);
            } else {
                assert(p < a);
                assert(s.encloses(p, a));
                let j = choose|j: int| 0 <= j < pa.len() && #[trigger] pa[j] == s.objects[p];
                assert(ps[j + 1] == pa[j]);
            }
        }
    }
}

/// The objects in a parent list are distinct and lie in distinct slots.
pub proof fn lemma_parent_chain_distinct(s: Shape, q: int)
    requires
        s.wf(),
        0 <= q < s.len(),
    ensures
        forall|j1: int, j2: int|
            0 <= j1 < s.parents_of(s.objects[q]).len() && 0 <= j2 < s.parents_of(s.objects[q]).len()
                && j1 != j2 ==> (#[trigger] s.parents_of(s.objects[q])[j1]).zero_based() != (
            #[trigger] s.parents_of(s.objects[q])[j2]).zero_based(),
{
    lemma_parent_chain(s, q);
    let ps = s.parents_of(s.objects[q]);
    assert forall|j1: int, j2: int|
        0 <= j1 < ps.len() && 0 <= j2 < ps.len() && j1 != j2 implies (#[trigger] ps[j1]).zero_based()
            != (#[trigger] ps[j2]).zero_based() by {
        if j1 < j2 {
            assert(s.pos_of(ps[j1]) > s.pos_of(ps[j2]));
        } else {
            assert(s.pos_of(ps[j2]) > s.pos_of(ps[j1]));
        }
    }
}

/// An object lies in the slot `k` listed among the parents of the object at
/// place `q` exactly when it encloses `q`.
pub proof fn lemma_has_id_parent(s: Shape, q: int, p: int)
    requires
        s.wf(),
        0 <= q < s.len(),
        0 <= p < s.len(),
    ensures
        has_id(s.parents_of(s.objects[q]), s.objects[p].zero_based()) <==> s.encloses(p, q),
{
    lemma_parent_chain(s, q);
    let ps = s.parents_of(s.objects[q]);
    let k = s.objects[p].zero_based();
    if has_id(ps, k) {
        let j = choose|j: int| 0 <= j < ps.len() && (#[trigger] ps[j]).zero_based() == k;
        lemma_same_slot(ps[j], s.objects[p]);
        assert(s.pos_of(s.objects[p]) == p);
    }
    if s.encloses(p, q) {
        let j = choose|j: int| 0 <= j < ps.len() && #[trigger] ps[j] == s.objects[p];
        assert(ps[j].zero_based() == k);
    }
}

/// The parent list of a descendant ends with the parent list of its ancestor,
/// preceded by the ancestor itself.
pub proof fn lemma_parent_suffix(s: Shape, p: int, q: int)
    requires
        s.wf(),
        q < s.len(),
        s.encloses(p, q),
    ensures
        ({
            let pq = s.parents_of(s.objects[q]);
            let pp = s.parents_of(s.objects[p]);
            &&& pq.len() > pp.len()
            &&& pq.skip(pq.len() - pp.len()) == pp
            &&& pq[pq.len() - pp.len() - 1] == s.objects[p]
        }),
    decreases q,
{
    assert(s.parent_link(q));
    let pq = s.parents_of(s.objects[q]);
    let pp = s.parents_of(s.objects[p]);
    let a = s.pos_of(pq[0]);
    assert(s.objects[a] == pq[0]);
    let pa = s.parents_of(s.objects[a]);
    assert(pq.drop_first() == pa);
    if a == p {
        assert(pq.skip(pq.len() - pp.len()) =~= pp);
    } else {
        assert(p < a);
        assert(s.encloses(p, a));
        lemma_parent_suffix(s, p, a);
        assert(pq.skip(pq.len() - pp.len()) =~= pa.skip(pa.len() - pp.len()));
        assert(pq[pq.len() - pp.len() - 1] == pa[pa.len() - pp.len() - 1]);
    }
}

/// Within the span of the object at place `i`, which starts and ends within
/// the lists, every place lies inside (the span is nested in its enclosers).
pub proof fn lemma_encloses_transitive(s: Shape, p: int, a: int, q: int)
    requires
        s.wf(),
        q < s.len(),
        s.encloses(p, a),
        s.encloses(a, q),
    ensures
        s.encloses(p, q),
{
    assert(a + s.cnt(a) <= p + s.cnt(p));
}


/// The place before `remove` of what is at place `q` after it.
pub open spec fn place_before_cut(i: int, c: int, q: int) -> int {
    if q < i {
        q
    } else {
        q + c
    }
}

/// Removing an object (with its descendants) keeps the hierarchy well-formed,
/// and what stays keeps its order, its parents and its ancestor relations.
#[verifier::spinoff_prover]
#[verifier::rlimit(40)]
pub proof fn lemma_remove_wf(m: HierarchyModel, o: ObjectId)
    requires
        m.wf(),
        m.contains_object(o),
    ensures
        m.remove(o).wf(),
        m.remove(o).shape.objects == cut(m.shape.objects, m.pos_of(o), m.pos_of(o) + m.count_of(o)),
        m.remove(o).shape.parents == m.shape.parents,
        m.remove(o).len() == m.len() - m.count_of(o),
        forall|q: int|
            0 <= q < m.len() - m.count_of(o) ==> #[trigger] m.remove(o).shape.objects[q]
                == m.shape.objects[place_before_cut(m.pos_of(o), m.count_of(o), q)],
        forall|q: int|
            0 <= q < m.len() - m.count_of(o) ==> #[trigger] m.remove(o).shape.cnt(q) == if m.shape.encloses(
                place_before_cut(m.pos_of(o), m.count_of(o), q),
                m.pos_of(o),
            ) {
                m.shape.cnt(place_before_cut(m.pos_of(o), m.count_of(o), q)) - m.count_of(o)
            } else {
                m.shape.cnt(place_before_cut(m.pos_of(o), m.count_of(o), q))
            },
        forall|p: int, q: int|
            0 <= p < m.len() - m.count_of(o) && 0 <= q < m.len() - m.count_of(o) ==> #[trigger] m.remove(
                o,
            ).shape.encloses(p, q) == m.shape.encloses(
                place_before_cut(m.pos_of(o), m.count_of(o), p),
                place_before_cut(m.pos_of(o), m.count_of(o), q),
            ),
{
    let s = m.shape;
    let r = m.remove(o).shape;
    let i = m.pos_of(o);
    let c = s.cnt(i);
    let n = s.len();
    assert(s.objects[i] == o);
    assert(1 <= c && i + c <= n);
    assert(r.len() == n - c);
    assert forall|q: int| 0 <= q < n - c implies #[trigger] r.objects[q] == s.objects[place_before_cut(i, c, q)] by {}
    // spans after the cut
    assert forall|q: int| 0 <= q < n - c implies {
        let x = #[trigger] r.objects[q];
        let oq = place_before_cut(i, c, q);
        &&& r.has_slot(x)
        &&& r.pos_of(x) == q
        &&& r.cnt(q) == if s.encloses(oq, i) {
            s.cnt(oq) - c
        } else {
            s.cnt(oq)
        }
    } by {
        let oq = place_before_cut(i, c, q);
        let x = s.objects[oq];
        assert(r.objects[q] == x);
        assert(s.pos_of(x) == oq);
        lemma_has_id_parent(s, i, oq);
        assert(s.parents_of(s.objects[i]) == m.parents_of(o));
        if s.encloses(oq, i) {
            assert(i + c <= oq + s.cnt(oq));
        }
    }
    // enclosure is kept
    assert forall|p: int, q: int| 0 <= p < n - c && 0 <= q < n - c implies #[trigger] r.encloses(p, q)
        == s.encloses(place_before_cut(i, c, p), place_before_cut(i, c, q)) by {
        let op = place_before_cut(i, c, p);
        let oq = place_before_cut(i, c, q);
        assert(r.objects[p] == s.objects[op]);
        assert(r.objects[q] == s.objects[oq]);
        if s.encloses(op, i) {
            assert(i + c <= op + s.cnt(op));
        } else if op < i {
            assert(!(i < op + s.cnt(op)));
        }
    }
    assert forall|p: int| 0 <= p < r.len() implies r.has_slot(#[trigger] r.objects[p]) && r.pos_of(
        r.objects[p],
    ) == p by {}
    assert forall|p: int| 0 <= p < r.len() implies 1 <= #[trigger] r.cnt(p) && p + r.cnt(p) <= r.len() by {
        let op = place_before_cut(i, c, p);
        assert(r.objects[p] == s.objects[op]);
        if s.encloses(op, i) {
            assert(i + c <= op + s.cnt(op));
        } else if op < i {
            assert(!(i < op + s.cnt(op)));
        }
    }
    assert forall|p: int, q: int| #![trigger r.encloses(p, q)]
        q < r.len() && r.encloses(p, q) implies q + r.cnt(q) <= p + r.cnt(p) by {
        let op = place_before_cut(i, c, p);
        let oq = place_before_cut(i, c, q);
        assert(r.objects[q] == s.objects[oq]);
        assert(r.objects[p] == s.objects[op]);
        assert(s.encloses(op, oq));
        assert(oq + s.cnt(oq) <= op + s.cnt(op));
        if s.encloses(oq, i) {
            lemma_encloses_transitive(s, op, oq, i);
        }
        if s.encloses(op, i) {
            assert(i + c <= op + s.cnt(op));
            if oq < i && !s.encloses(oq, i) {
                assert(!(i < oq + s.cnt(oq)));
            }
        } else if op < i {
            assert(!(i < op + s.cnt(op)));
        }
    }
    assert forall|q: int| 0 <= q < r.len() implies #[trigger] r.parent_link(q) by {
        let oq = place_before_cut(i, c, q);
        assert(r.objects[q] == s.objects[oq]);
        assert(s.parent_link(oq));
        let ps = s.parents_of(s.objects[oq]);
        assert(r.parents_of(r.objects[q]) == ps);
        if ps.len() == 0 {
            assert forall|p: int| #![trigger r.encloses(p, q)] !r.encloses(p, q) by {
                if 0 <= p < q {
                    assert(r.encloses(p, q) == s.encloses(place_before_cut(i, c, p), oq));
                }
            }
        } else {
            let a = s.pos_of(ps[0]);
            assert(s.objects[a] == ps[0]);
            // the parent is not removed: otherwise the object would be removed too
            if i <= a < i + c {
                if a == i {
                    assert(s.encloses(i, oq));
                } else {
                    assert(s.encloses(i, a));
                    lemma_encloses_transitive(s, i, a, oq);
                }
                assert(false);
            }
            let na = if a < i {
                a
            } else {
                a - c
            };
            assert(place_before_cut(i, c, na) == a);
            assert(r.objects[na] == ps[0]);
            assert(r.contains_object(ps[0]));
            assert(r.pos_of(ps[0]) == na);
            assert(r.encloses(na, q) == s.encloses(a, oq));
            assert forall|p: int| #![trigger r.encloses(p, q)] na < p implies !r.encloses(p, q) by {
                if p < q {
                    assert(r.encloses(p, q) == s.encloses(place_before_cut(i, c, p), oq));
                }
            }
        }
    }
    assert(r.wf());
    let mr = m.remove(o);
    assert forall|p: int| 0 <= p < mr.len() implies super::names::symbol_index(#[trigger] mr.names[p])
        < mr.interned.len() by {
        assert(mr.names[p] == m.names[place_before_cut(i, c, p)]);
    }
}

} // verus!

verus! {

/// What the re-parenting needs of the spans before the block moves: the
/// parent's span and the block lie apart, so the parent and its ancestors
/// can take the block's places without leaving the lists, and the
/// destination lies outside the block.
pub proof fn lemma_reparent_bounds(m: HierarchyModel, o: ObjectId, p: ObjectId)
    requires
        m.wf(),
        m.moves_apart(o, Some(p)),
    ensures
        ({
            let s = m.shape;
            let i = m.pos_of(o);
            let c = m.count_of(o);
            let a = m.pos_of(p);
            let m2 = m.detach(o);
            &&& a + s.cnt(a) <= i || i + c <= a
            &&& m2.count_of(p) == m.count_of(p)
            &&& m2.pos_of(p) == a
            &&& m.count_of(p) + c <= s.len()
            &&& forall|j: int|
                0 <= j < m.parents_of(p).len() ==> m2.count_of(#[trigger] m.parents_of(p)[j]) + c
                    <= s.len()
            &&& forall|j: int|
                0 <= j < m.parents_of(p).len() ==> (#[trigger] m.parents_of(p)[j]).zero_based()
                    != p.zero_based()
        }),
{
    let s = m.shape;
    let i = m.pos_of(o);
    let c = m.count_of(o);
    let a = m.pos_of(p);
    assert(s.objects[i] == o);
    assert(s.objects[a] == p);
    assert(s.cnt(i) == c);
    lemma_has_id_parent(s, i, a);
    assert(s.parents_of(s.objects[i]) == m.parents_of(o));
    if a < i {
        assert(!s.encloses(a, i));
    }
    let hp = m.parents_of(p);
    assert(hp == s.parents_of(s.objects[a]));
    lemma_parent_chain(s, a);
    assert forall|j: int| 0 <= j < hp.len() implies m.detach(o).count_of(#[trigger] hp[j]) + c <= s.len() by {
        let h = hp[j];
        let b = s.pos_of(h);
        assert(s.encloses(b, a));
        assert(s.objects[b] == h);
        lemma_has_id_parent(s, i, b);
        if s.encloses(b, i) {
            assert(i + c <= b + s.cnt(b));
        } else {
            if i <= b < i + c {
                if b == i {
                    assert(s.encloses(i, a));
                } else {
                    assert(s.encloses(i, b));
                    lemma_encloses_transitive(s, i, b, a);
                }
            }
            if b < i {
                assert(!(i < b + s.cnt(b)));
            }
        }
    }
    assert forall|j: int| 0 <= j < hp.len() implies (#[trigger] hp[j]).zero_based() != p.zero_based() by {
        let h = hp[j];
        assert(s.encloses(s.pos_of(h), a));
    }
    if i <= a + s.cnt(a) - 1 && a < i {
        assert(s.encloses(a, i));
    }
}

} // verus!

verus! {

/// What attaching the block of `o` under `p` needs, for either kind of
/// re-parenting: `p` lies outside the block, keeps its place when the block is
/// detached, and it and its ancestors can gain the block's places.
pub proof fn lemma_attach_bounds(m: HierarchyModel, o: ObjectId, p: ObjectId)
    requires
        m.wf(),
        m.can_reparent(o, Some(p)),
    ensures
        ({
            let s = m.shape;
            let i = m.pos_of(o);
            let c = m.count_of(o);
            let a = m.pos_of(p);
            let m2 = m.detach(o);
            let dest = m2.pos_of(p) + m2.count_of(p);
            &&& a < i || i + c <= a
            &&& m2.pos_of(p) == a
            &&& m2.count_of(p) + c <= s.len()
            &&& 0 <= dest <= s.len()
            &&& dest <= i || i + c <= dest
            &&& m.ends_ancestor(o, p) ==> dest == i
            &&& forall|j: int|
                0 <= j < m.parents_of(p).len() ==> m2.count_of(#[trigger] m.parents_of(p)[j]) + c
                    <= s.len()
            &&& forall|j: int|
                0 <= j < m.parents_of(p).len() ==> (#[trigger] m.parents_of(p)[j]).zero_based()
                    != p.zero_based()
        }),
{
    let s = m.shape;
    let i = m.pos_of(o);
    let c = m.count_of(o);
    let a = m.pos_of(p);
    assert(s.objects[i] == o);
    assert(s.objects[a] == p);
    assert(s.cnt(i) == c);
    assert(s.cnt(a) == m.count_of(p));
    if m.moves_apart(o, Some(p)) {
        lemma_reparent_bounds(m, o, p);
        assert(!has_id(m.parents_of(o), p.zero_based()));
    } else {
        let ps = m.parents_of(o);
        assert(ps == s.parents_of(s.objects[i]));
        lemma_has_id_parent(s, i, a);
        assert(s.encloses(a, i));
        let hp = m.parents_of(p);
        assert(hp == s.parents_of(s.objects[a]));
        lemma_parent_chain(s, a);
        assert(m.detach(o).count_of(p) == m.count_of(p) - c);
        assert forall|j: int| 0 <= j < hp.len() implies m.detach(o).count_of(#[trigger] hp[j]) + c <= s.len() by {
            let h = hp[j];
            let b = s.pos_of(h);
            assert(s.objects[b] == h);
            assert(s.encloses(b, a));
            lemma_encloses_transitive(s, b, a, i);
            lemma_has_id_parent(s, i, b);
            assert(b + s.cnt(b) <= s.len());
        }
        assert forall|j: int| 0 <= j < hp.len() implies (#[trigger] hp[j]).zero_based() != p.zero_based() by {
            let h = hp[j];
            assert(s.encloses(s.pos_of(h), a));
        }
    }
}

/// An object is not among its own parents.
pub proof fn lemma_not_own_parent(m: HierarchyModel, o: ObjectId)
    requires
        m.wf(),
        m.contains_object(o),
    ensures
        !has_id(m.parents_of(o), o.zero_based()),
{
    let s = m.shape;
    let i = m.pos_of(o);
    assert(s.objects[i] == o);
    lemma_parent_chain(s, i);
    assert(m.parents_of(o) == s.parents_of(s.objects[i]));
    if has_id(m.parents_of(o), o.zero_based()) {
        let jj = choose|jj: int|
            0 <= jj < m.parents_of(o).len() && (#[trigger] m.parents_of(o)[jj]).zero_based()
                == o.zero_based();
        lemma_same_slot(m.parents_of(o)[jj], o);
    }
}

/// Before the block moves, the re-parenting has kept the places, the lengths
/// and the object's span, and the destination lies outside the block.
pub proof fn lemma_reparent_links_facts(m: HierarchyModel, o: ObjectId, parent: Option<ObjectId>)
    requires
        m.wf(),
        m.can_reparent(o, parent),
    ensures
        ({
            let (s4, dest) = m.reparent_links(o, parent);
            let i = m.pos_of(o);
            let c = m.count_of(o);
            &&& s4.wf_lengths()
            &&& s4.shape.wf_positions()
            &&& s4.shape.objects == m.shape.objects
            &&& s4.has_slot(o)
            &&& s4.pos_of(o) == i
            &&& s4.count_of(o) == c
            &&& 1 <= c
            &&& i + c <= m.len()
            &&& 0 <= dest <= m.len()
            &&& (dest <= i || i + c <= dest)
            &&& forall|k: int|
                0 <= k < m.shape.spans.len() ==> (#[trigger] s4.shape.spans[k]).index
                    == m.shape.spans[k].index
        }),
        m.detach(o).count_of(o) == m.count_of(o),
{
    let s = m.shape;
    let i = m.pos_of(o);
    assert(s.objects[i] == o);
    assert(1 <= s.cnt(i) && i + s.cnt(i) <= s.len());
    lemma_not_own_parent(m, o);
    let (s4, dest) = m.reparent_links(o, parent);
    match parent {
        Some(p) => {
            lemma_attach_bounds(m, o, p);
            let a = m.pos_of(p);
            assert(s.objects[a] == p);
            assert(p.zero_based() != o.zero_based()) by {
                if p.zero_based() == o.zero_based() {
                    lemma_same_slot(p, o);
                }
            }
            assert(!has_id(m.parents_of(p), o.zero_based())) by {
                lemma_parent_chain(s, a);
                assert(m.parents_of(p) == s.parents_of(s.objects[a]));
                if has_id(m.parents_of(p), o.zero_based()) {
                    let jj = choose|jj: int|
                        0 <= jj < m.parents_of(p).len() && (#[trigger] m.parents_of(p)[jj]).zero_based()
                            == o.zero_based();
                    lemma_same_slot(m.parents_of(p)[jj], o);
                    assert(s.encloses(i, a));
                }
            }
        },
        None => {},
    }
    assert forall|p: int| 0 <= p < s4.len() implies s4.has_slot(#[trigger] s4.shape.objects[p])
        && s4.pos_of(s4.shape.objects[p]) == p by {
        assert(s4.shape.objects[p] == s.objects[p]);
    }
}

} // verus!

verus! {

} // verus!

verus! {

/// The parent of `o` is active (an object without a parent counts as having
/// an active one).
pub open spec fn parent_is_active(m: HierarchyModel, o: ObjectId) -> bool {
    m.parents_of(o).len() == 0 || m.actives[m.pos_of(m.parents_of(o)[0])]
}

/// After `set_active(o, b)`: when `b` is false or the parent is inactive, the
/// object and all its descendants are inactive; else the object is active.
/// Objects outside its span keep their active state, and the shape of the
/// hierarchy does not change.
pub proof fn lemma_set_active_effect(m: HierarchyModel, o: ObjectId, b: bool)
    requires
        m.wf(),
        m.contains_object(o),
        0 <= o.zero_based() < m.len(),
    ensures
        m.set_active(o, b).shape == m.shape,
        m.set_active(o, b).actives.len() == m.actives.len(),
        !(b && parent_is_active(m, o)) ==> forall|k: int|
            m.pos_of(o) <= k < m.pos_of(o) + m.count_of(o) ==> !#[trigger] m.set_active(o, b).actives[k],
        b && parent_is_active(m, o) ==> m.set_active(o, b).actives[m.pos_of(o)],
        forall|k: int|
            0 <= k < m.len() && !(m.pos_of(o) <= k < m.pos_of(o) + m.count_of(o)) ==> #[trigger] m.set_active(
                o,
                b,
            ).actives[k] == m.actives[k],
{
    let i = m.pos_of(o);
    let s = m.shape;
    assert(s.objects[i] == o);
    assert(s.cnt(i) == m.count_of(o));
    assert(i + m.count_of(o) <= m.len());
    let n = m.set_active(o, b);
    let s2 = HierarchyModel { active_selfs: m.active_selfs.update(o.zero_based(), b), ..m };
    assert(s2.active_flag(i, 0));
}

} // verus!
