use super::super::object_id::ObjectId;
use super::hierarchy_lemmas::{
    lemma_encloses_transitive, lemma_has_id_parent, lemma_not_own_parent, lemma_parent_chain,
    lemma_parent_suffix, lemma_remove_wf, lemma_reparent_bounds, lemma_reparent_links_facts, lemma_attach_bounds,
    lemma_same_slot, place_before_cut,
};
use super::hierarchy_model::{has_id, rotate, HierarchyModel, Shape};
use super::reparent_up_lemmas::lemma_set_parent_up_effect;
use vstd::prelude::*;

verus! {

/// The place after a re-parenting of what was at place `q`: the block
/// `i..i + c` goes to `e..e + c` of the lists without it, and what was
/// outside keeps its order around it.
pub open spec fn new_place(i: int, c: int, e: int, q: int) -> int {
    if i <= q < i + c {
        e + (q - i)
    } else {
        let t = place_after_cut(i, c, q);
        if t < e {
            t
        } else {
            t + c
        }
    }
}

/// The place in the lists without the block `i..i + c` of what is outside it.
pub open spec fn place_after_cut(i: int, c: int, q: int) -> int {
    if q < i {
        q
    } else {
        q - c
    }
}

/// The place before a re-parenting of what is at place `p` after it.
pub open spec fn old_place(i: int, c: int, e: int, p: int) -> int {
    if p < e {
        place_before_cut(i, c, p)
    } else if p < e + c {
        i + (p - e)
    } else {
        place_before_cut(i, c, p - c)
    }
}

/// Where, in the lists without the block, the block goes back in.
pub open spec fn insert_point(m: HierarchyModel, o: ObjectId, parent: Option<ObjectId>) -> int {
    let i = m.pos_of(o);
    let c = m.count_of(o);
    match parent {
        Some(p) => place_after_cut(i, c, m.pos_of(p)) + m.count_of(p),
        None => m.len() - c,
    }
}

/// `new_place` and `old_place` undo each other.
pub proof fn lemma_places_inverse(i: int, c: int, e: int, n: int)
    requires
        0 <= i,
        1 <= c,
        i + c <= n,
        0 <= e <= n - c,
    ensures
        forall|q: int|
            0 <= q < n ==> 0 <= #[trigger] new_place(i, c, e, q) < n && old_place(
                i,
                c,
                e,
                new_place(i, c, e, q),
            ) == q,
        forall|p: int|
            0 <= p < n ==> 0 <= #[trigger] old_place(i, c, e, p) < n && new_place(
                i,
                c,
                e,
                old_place(i, c, e, p),
            ) == p,
{
}


/// The element at a place of a list after the swap of `l..m` and `m..r`.
pub proof fn lemma_rotate_index<T>(s: Seq<T>, l: int, m: int, r: int)
    requires
        0 <= l <= m <= r <= s.len(),
    ensures
        rotate(s, l, m, r).len() == s.len(),
        forall|x: int|
            0 <= x < s.len() ==> #[trigger] rotate(s, l, m, r)[x] == if x < l {
                s[x]
            } else if x < l + (r - m) {
                s[m + (x - l)]
            } else if x < r {
                s[l + (x - l - (r - m))]
            } else {
                s[x]
            },
{
    let a = s.take(l);
    let b = s.subrange(m, r);
    let c = s.subrange(l, m);
    let d = s.skip(r);
    assert(rotate(s, l, m, r) == a + b + c + d);
    assert forall|x: int| 0 <= x < s.len() implies #[trigger] rotate(s, l, m, r)[x] == if x < l {
        s[x]
    } else if x < l + (r - m) {
        s[m + (x - l)]
    } else if x < r {
        s[l + (x - l - (r - m))]
    } else {
        s[x]
    } by {
        if x < l {
            assert((a + b + c + d)[x] == a[x]);
        } else if x < l + (r - m) {
            assert((a + b + c + d)[x] == b[x - l]);
        } else if x < r {
            assert((a + b + c + d)[x] == c[x - l - (r - m)]);
        } else {
            assert((a + b + c + d)[x] == d[x - r]);
        }
    }
}

/// Where everything lands after a re-parenting: what was at place `q` is at
/// `new_place(q)`, and its span's place says so; the counts and parent lists
/// are those set before the move.
#[verifier::spinoff_prover]
#[verifier::rlimit(40)]
pub proof fn lemma_reparent_layout(m: HierarchyModel, o: ObjectId, parent: Option<ObjectId>)
    requires
        m.wf(),
        m.moves_apart(o, parent),
    ensures
        ({
            let s = m.shape;
            let i = m.pos_of(o);
            let c = m.count_of(o);
            let n = m.len();
            let e = insert_point(m, o, parent);
            let (s4, dest) = m.reparent_links(o, parent);
            let s5 = m.reparent(o, parent).shape;
            &&& 0 <= e <= n - c
            &&& 1 <= c && i + c <= n
            &&& s5.len() == n
            &&& s5.spans.len() == s.spans.len()
            &&& s5.parents == s4.shape.parents
            &&& forall|q: int| 0 <= q < n ==> #[trigger] s5.objects[new_place(i, c, e, q)] == s.objects[q]
            &&& forall|q: int|
                0 <= q < n ==> #[trigger] s5.spans[s.objects[q].zero_based()] == (
                super::object_span::ObjectSpan {
                    index: new_place(i, c, e, q) as u32,
                    count: s4.shape.spans[s.objects[q].zero_based()].count,
                })
        }),
{
    let s = m.shape;
    let i = m.pos_of(o);
    let c = m.count_of(o);
    let n = m.len();
    let e = insert_point(m, o, parent);
    let (s4, dest) = m.reparent_links(o, parent);
    let s5 = m.reparent(o, parent).shape;
    lemma_reparent_links_facts(m, o, parent);
    assert(s.objects[i] == o);
    assert(s.cnt(i) == c);
    match parent {
        Some(p) => {
            lemma_reparent_bounds(m, o, p);
            let a = m.pos_of(p);
            assert(s.objects[a] == p);
            assert(a + s.cnt(a) <= n);
            assert(m.detach(o).count_of(p) == m.count_of(p));
            assert(dest == a + m.count_of(p));
        },
        None => {},
    }
    assert(dest <= i ==> e == dest);
    assert(dest > i ==> e == dest - c);
    lemma_places_inverse(i, c, e, n);
    if dest == i {
        assert(s5 == s4.shape);
        assert forall|q: int| 0 <= q < n implies new_place(i, c, e, q) == q by {}
    } else if dest < i {
        lemma_rotate_index(s.objects, dest, i, i + c);
    } else {
        lemma_rotate_index(s.objects, i, i + c, dest);
    }
    assert forall|q: int| 0 <= q < n implies #[trigger] s5.objects[new_place(i, c, e, q)] == s.objects[q] by {
        let x = new_place(i, c, e, q);
        if dest != i {
            assert(0 <= x < n);
        }
    }
    assert forall|q: int| 0 <= q < n implies #[trigger] s5.spans[s.objects[q].zero_based()] == (
    super::object_span::ObjectSpan {
        index: new_place(i, c, e, q) as u32,
        count: s4.shape.spans[s.objects[q].zero_based()].count,
    }) by {
        let k = s.objects[q].zero_based();
        assert(s.pos_of(s.objects[q]) == q);
        assert(s4.shape.spans[k].index == q);
        assert(s4.shape.slot_in(k, i, i + c) == (i <= q < i + c));
        if dest < i {
            assert(s4.shape.slot_in(k, dest, i) == (dest <= q < i));
        } else if dest > i {
            assert(s4.shape.slot_in(k, i + c, dest) == (i + c <= q < dest));
        }
    }
}


/// The object at place `q` is the new parent or one of its ancestors.
pub open spec fn gains(m: HierarchyModel, parent: Option<ObjectId>, q: int) -> bool {
    match parent {
        Some(p) => q == m.pos_of(p) || m.shape.encloses(q, m.pos_of(p)),
        None => false,
    }
}

/// The counts and parent lists set by a re-parenting, by the places before it:
/// the old ancestors lose the block, the new parent and its ancestors gain it,
/// and the block's objects swap the old ancestors for the new ones in their
/// parent lists.
#[verifier::spinoff_prover]
#[verifier::rlimit(40)]
pub proof fn lemma_reparent_links(m: HierarchyModel, o: ObjectId, parent: Option<ObjectId>)
    requires
        m.wf(),
        m.can_reparent(o, parent),
    ensures
        ({
            let s = m.shape;
            let i = m.pos_of(o);
            let c = m.count_of(o);
            let d = m.parents_of(o).len();
            let (s4, dest) = m.reparent_links(o, parent);
            &&& forall|q: int|
                0 <= q < m.len() ==> (#[trigger] s4.shape.spans[s.objects[q].zero_based()]).count == s.cnt(q)
                    - (if s.encloses(q, i) {
                    c
                } else {
                    0
                }) + (if gains(m, parent, q) {
                    c
                } else {
                    0
                })
            &&& forall|q: int|
                0 <= q < m.len() ==> #[trigger] s4.shape.parents[s.objects[q].zero_based()] == if i <= q < i
                    + c {
                    let t = s.parents_of(s.objects[q]).take(s.parents_of(s.objects[q]).len() - d);
                    match parent {
                        Some(p) => t.push(p) + m.parents_of(p),
                        None => t,
                    }
                } else {
                    s.parents_of(s.objects[q])
                }
            &&& forall|q: int| 0 <= q < m.len() && i <= q < i + c ==> !#[trigger] gains(m, parent, q)
            &&& forall|q: int| 0 <= q < m.len() && i <= q < i + c ==> !#[trigger] s.encloses(q, i)
        }),
{
    let s = m.shape;
    let i = m.pos_of(o);
    let c = m.count_of(o);
    let n = m.len();
    let d = m.parents_of(o).len();
    let (s4, dest) = m.reparent_links(o, parent);
    lemma_reparent_links_facts(m, o, parent);
    assert(s.objects[i] == o);
    assert(s.cnt(i) == c);
    assert(m.parents_of(o) == s.parents_of(s.objects[i]));
    let s2 = m.detach(o);
    let s3 = s2.truncate_block_parents(o, d as int);
    assert forall|q: int| 0 <= q < n implies (#[trigger] s4.shape.spans[s.objects[q].zero_based()]).count
        == s.cnt(q) - (if s.encloses(q, i) {
        c
    } else {
        0
    }) + (if gains(m, parent, q) {
        c
    } else {
        0
    }) by {
        let k = s.objects[q].zero_based();
        lemma_has_id_parent(s, i, q);
        assert(s2.shape.spans[k].count == s.cnt(q) - (if s.encloses(q, i) {
            c
        } else {
            0
        }));
        match parent {
            Some(p) => {
                let a = m.pos_of(p);
                assert(s.objects[a] == p);
                lemma_has_id_parent(s, a, q);
                assert(s.parents_of(s.objects[a]) == m.parents_of(p));
                assert((k == p.zero_based()) == (q == a)) by {
                    if k == p.zero_based() {
                        lemma_same_slot(s.objects[q], p);
                    }
                }
                lemma_attach_bounds(m, o, p);
                assert(!s2.shape.slot_in(p.zero_based(), i, i + c));
                assert(s3.parents_of(p) == m.parents_of(p));
            },
            None => {},
        }
    }
    assert forall|q: int| 0 <= q < n implies #[trigger] s4.shape.parents[s.objects[q].zero_based()] == if i
        <= q < i + c {
        let t = s.parents_of(s.objects[q]).take(s.parents_of(s.objects[q]).len() - d);
        match parent {
            Some(p) => t.push(p) + m.parents_of(p),
            None => t,
        }
    } else {
        s.parents_of(s.objects[q])
    } by {
        let k = s.objects[q].zero_based();
        assert(s.pos_of(s.objects[q]) == q);
        assert(s2.shape.slot_in(k, i, i + c) == (i <= q < i + c));
        match parent {
            Some(p) => {
                lemma_attach_bounds(m, o, p);
                let a = m.pos_of(p);
                assert(s.objects[a] == p);
                assert(!s2.shape.slot_in(p.zero_based(), i, i + c));
                assert(s3.parents_of(p) == m.parents_of(p));
            },
            None => {},
        }
    }
    assert forall|q: int| 0 <= q < n && i <= q < i + c implies !#[trigger] gains(m, parent, q) by {
        match parent {
            Some(p) => {
                lemma_attach_bounds(m, o, p);
                let a = m.pos_of(p);
                if s.encloses(q, a) {
                    if q == i {
                        assert(s.encloses(i, a));
                    } else {
                        assert(s.encloses(i, q));
                        lemma_encloses_transitive(s, i, q, a);
                    }
                }
            },
            None => {},
        }
    }
}


/// The count after a re-parenting of the object that was at place `q`.
pub open spec fn new_count(m: HierarchyModel, o: ObjectId, parent: Option<ObjectId>, q: int) -> int {
    m.shape.cnt(q) - (if m.shape.encloses(q, m.pos_of(o)) {
        m.count_of(o)
    } else {
        0
    }) + (if gains(m, parent, q) {
        m.count_of(o)
    } else {
        0
    })
}

/// Facts of the lists without the block that the re-parenting relies on:
/// around the insertion point, every span outside the block either holds
/// the new parent's span (and so the insertion point) or stays on one side.
#[verifier::spinoff_prover]
#[verifier::rlimit(40)]
pub proof fn lemma_insert_point_sides(m: HierarchyModel, o: ObjectId, parent: Option<ObjectId>, p: int)
    requires
        m.wf(),
        m.moves_apart(o, parent),
        0 <= p < m.len(),
        !(m.pos_of(o) <= p < m.pos_of(o) + m.count_of(o)),
    ensures
        ({
            let i = m.pos_of(o);
            let c = m.count_of(o);
            let e = insert_point(m, o, parent);
            let tp = place_after_cut(i, c, p);
            let rc = m.shape.cnt(p) - (if m.shape.encloses(p, i) {
                c
            } else {
                0
            });
            &&& 1 <= rc
            &&& tp + rc <= m.len() - c
            &&& gains(m, parent, p) ==> tp < e && e <= tp + rc
            &&& !gains(m, parent, p) ==> e <= tp || tp + rc <= e
        }),
{
    let s = m.shape;
    let i = m.pos_of(o);
    let c = m.count_of(o);
    let n = m.len();
    let e = insert_point(m, o, parent);
    let r = m.remove(o).shape;
    lemma_remove_wf(m, o);
    assert(s.objects[i] == o);
    assert(s.cnt(i) == c);
    let tp = place_after_cut(i, c, p);
    assert(place_before_cut(i, c, tp) == p);
    assert(r.cnt(tp) == s.cnt(p) - (if s.encloses(p, i) {
        c
    } else {
        0
    }));
    assert(1 <= r.cnt(tp) && tp + r.cnt(tp) <= r.len());
    match parent {
        Some(pp) => {
            lemma_reparent_bounds(m, o, pp);
            let a = m.pos_of(pp);
            assert(s.objects[a] == pp);
            let ta = place_after_cut(i, c, a);
            assert(place_before_cut(i, c, ta) == a);
            assert(!s.encloses(a, i));
            assert(r.cnt(ta) == s.cnt(a));
            assert(e == ta + r.cnt(ta));
            assert(r.encloses(tp, ta) == s.encloses(p, a));
            assert(r.encloses(ta, tp) == s.encloses(a, p));
            if gains(m, parent, p) {
                if tp != ta {
                    assert(r.encloses(tp, ta));
                    assert(ta + r.cnt(ta) <= tp + r.cnt(tp));
                }
            } else {
                if tp < e && e < tp + r.cnt(tp) {
                    if tp < ta {
                        assert(r.encloses(tp, ta));
                    } else if tp > ta {
                        assert(r.encloses(ta, tp));
                        assert(tp + r.cnt(tp) <= ta + r.cnt(ta));
                    }
                }
            }
        },
        None => {},
    }
}

/// Which objects enclose which after a re-parenting, by their places before
/// it: within the block and outside it, as before; an object outside encloses
/// one of the block exactly when it is the new parent or one of its
/// ancestors; an object of the block encloses nothing outside it.
#[verifier::spinoff_prover]
#[verifier::rlimit(40)]
pub proof fn lemma_reparent_encloses(m: HierarchyModel, o: ObjectId, parent: Option<ObjectId>, p: int, q: int)
    requires
        m.wf(),
        m.moves_apart(o, parent),
        0 <= p < m.len(),
        0 <= q < m.len(),
    ensures
        ({
            let i = m.pos_of(o);
            let c = m.count_of(o);
            let e = insert_point(m, o, parent);
            let s5 = m.reparent(o, parent).shape;
            let in_p = i <= p < i + c;
            let in_q = i <= q < i + c;
            &&& s5.cnt(new_place(i, c, e, p)) == new_count(m, o, parent, p)
            &&& s5.encloses(new_place(i, c, e, p), new_place(i, c, e, q)) == if in_p == in_q {
                m.shape.encloses(p, q)
            } else if in_q {
                gains(m, parent, p)
            } else {
                false
            }
        }),
{
    let s = m.shape;
    let i = m.pos_of(o);
    let c = m.count_of(o);
    let n = m.len();
    let e = insert_point(m, o, parent);
    let s5 = m.reparent(o, parent).shape;
    lemma_reparent_layout(m, o, parent);
    lemma_reparent_links(m, o, parent);
    lemma_places_inverse(i, c, e, n);
    assert(s.objects[i] == o);
    assert(s.cnt(i) == c);
    let np = new_place(i, c, e, p);
    let nq = new_place(i, c, e, q);
    assert(s5.objects[np] == s.objects[p]);
    assert(s5.objects[nq] == s.objects[q]);
    assert(s5.cnt(np) == new_count(m, o, parent, p));
    assert(s5.cnt(nq) == new_count(m, o, parent, q));
    let in_p = i <= p < i + c;
    let in_q = i <= q < i + c;
    if in_p {
        if p > i {
            assert(s.encloses(i, p));
        }
        assert(p + s.cnt(p) <= i + c);
    }
    if !in_p {
        lemma_insert_point_sides(m, o, parent, p);
    }
    if !in_p && !in_q {
        let tp = place_after_cut(i, c, p);
        let tq = place_after_cut(i, c, q);
        let r = m.remove(o).shape;
        lemma_remove_wf(m, o);
        assert(place_before_cut(i, c, tp) == p);
        assert(place_before_cut(i, c, tq) == q);
        assert(r.encloses(tp, tq) == s.encloses(p, q));
        assert(r.cnt(tp) == s.cnt(p) - (if s.encloses(p, i) {
            c
        } else {
            0
        }));
    }
}


/// After a re-parenting, every span lies within the lists and nested spans
/// stay nested, for the objects that were at places `p` and `q`.
#[verifier::spinoff_prover]
#[verifier::rlimit(40)]
pub proof fn lemma_reparent_spans_pair(m: HierarchyModel, o: ObjectId, parent: Option<ObjectId>, p: int, q: int)
    requires
        m.wf(),
        m.moves_apart(o, parent),
        0 <= p < m.len(),
        0 <= q < m.len(),
    ensures
        ({
            let i = m.pos_of(o);
            let c = m.count_of(o);
            let e = insert_point(m, o, parent);
            let s5 = m.reparent(o, parent).shape;
            let np = new_place(i, c, e, p);
            let nq = new_place(i, c, e, q);
            &&& 1 <= s5.cnt(np)
            &&& np + s5.cnt(np) <= m.len()
            &&& s5.encloses(np, nq) ==> nq + s5.cnt(nq) <= np + s5.cnt(np)
        }),
{
    let s = m.shape;
    let i = m.pos_of(o);
    let c = m.count_of(o);
    let n = m.len();
    let e = insert_point(m, o, parent);
    let s5 = m.reparent(o, parent).shape;
    lemma_reparent_layout(m, o, parent);
    lemma_reparent_links(m, o, parent);
    lemma_reparent_encloses(m, o, parent, p, q);
    lemma_reparent_encloses(m, o, parent, q, q);
    assert(s.objects[i] == o);
    assert(s.cnt(i) == c);
    let in_p = i <= p < i + c;
    let in_q = i <= q < i + c;
    if in_p {
        if p > i {
            assert(s.encloses(i, p));
        }
        assert(p + s.cnt(p) <= i + c);
    } else {
        lemma_insert_point_sides(m, o, parent, p);
    }
    if in_q {
        if q > i {
            assert(s.encloses(i, q));
        }
        assert(q + s.cnt(q) <= i + c);
    } else {
        lemma_insert_point_sides(m, o, parent, q);
    }
    let np = new_place(i, c, e, p);
    let nq = new_place(i, c, e, q);
    if s5.encloses(np, nq) {
        if in_p && in_q {
            assert(s.encloses(p, q));
        } else if !in_p && !in_q {
            assert(s.encloses(p, q));
            let r = m.remove(o).shape;
            lemma_remove_wf(m, o);
            let tp = place_after_cut(i, c, p);
            let tq = place_after_cut(i, c, q);
            assert(place_before_cut(i, c, tp) == p);
            assert(place_before_cut(i, c, tq) == q);
            assert(r.encloses(tp, tq));
            assert(tq + r.cnt(tq) <= tp + r.cnt(tp));
            if gains(m, parent, q) {
                match parent {
                    Some(pp) => {
                        let a = m.pos_of(pp);
                        if q != a {
                            lemma_encloses_transitive(s, p, q, a);
                        }
                    },
                    None => {},
                }
                assert(gains(m, parent, p));
            }
        }
    }
}

/// The parent list of an object outside the moved block is right again.
#[verifier::spinoff_prover]
#[verifier::rlimit(40)]
pub proof fn lemma_reparent_link_outside(m: HierarchyModel, o: ObjectId, parent: Option<ObjectId>, q: int)
    requires
        m.wf(),
        m.moves_apart(o, parent),
        0 <= q < m.len(),
        !(m.pos_of(o) <= q < m.pos_of(o) + m.count_of(o)),
    ensures
        m.reparent(o, parent).shape.parent_link(
            new_place(m.pos_of(o), m.count_of(o), insert_point(m, o, parent), q),
        ),
{
    let s = m.shape;
    let i = m.pos_of(o);
    let c = m.count_of(o);
    let n = m.len();
    let d = m.parents_of(o).len();
    let e = insert_point(m, o, parent);
    let s5 = m.reparent(o, parent).shape;
    lemma_reparent_layout(m, o, parent);
    lemma_reparent_links(m, o, parent);
    lemma_places_inverse(i, c, e, n);
    assert(s.objects[i] == o);
    assert(s.cnt(i) == c);
    let nq = new_place(i, c, e, q);
    let x = s.objects[q];
    assert(s5.objects[nq] == x);
    assert(s.parent_link(q));
    let ps = s.parents_of(x);
    let ps5 = s5.parents_of(x);
    let in_q = i <= q < i + c;
    assert forall|pp: int| #![trigger s5.encloses(pp, nq)] 0 <= pp < n && s5.encloses(pp, nq) implies {
        let op = old_place(i, c, e, pp);
        let in_p = i <= op < i + c;
        &&& new_place(i, c, e, op) == pp
        &&& (in_p == in_q ==> s.encloses(op, q))
        &&& (in_p != in_q ==> !in_p && gains(m, parent, op))
    } by {
        let op = old_place(i, c, e, pp);
        lemma_reparent_encloses(m, o, parent, op, q);
    }
        assert(ps5 == ps);
        if ps.len() == 0 {
            assert forall|pp: int| #![trigger s5.encloses(pp, nq)] !s5.encloses(pp, nq) by {
                if s5.encloses(pp, nq) {
                    assert(pp < n);
                    let op = old_place(i, c, e, pp);
                    assert(s.encloses(op, q));
                }
            }
        } else {
            let a0 = s.pos_of(ps[0]);
            assert(s.objects[a0] == ps[0]);
            assert(s.encloses(a0, q));
            // the parent is outside the block too
            if i <= a0 < i + c {
                if a0 > i {
                    assert(s.encloses(i, a0));
                    lemma_encloses_transitive(s, i, a0, q);
                }
                assert(s.encloses(i, q));
                assert(false);
            }
            let na = new_place(i, c, e, a0);
            assert(s5.objects[na] == ps[0]);
            lemma_reparent_encloses(m, o, parent, a0, q);
            assert(s5.encloses(na, nq));
            assert(s5.parents_of(ps[0]) == s.parents_of(ps[0]));
            assert forall|pp: int| #![trigger s5.encloses(pp, nq)] na < pp implies !s5.encloses(pp, nq) by {
                if s5.encloses(pp, nq) {
                    let op = old_place(i, c, e, pp);
                    assert(s.encloses(op, q));
                    assert(op <= a0);
                }
            }
        }
}

/// The parent list of the re-parented object is right again.
#[verifier::spinoff_prover]
#[verifier::rlimit(40)]
pub proof fn lemma_reparent_link_root(m: HierarchyModel, o: ObjectId, parent: Option<ObjectId>, q: int)
    requires
        m.wf(),
        m.moves_apart(o, parent),
        0 <= q < m.len(),
        q == m.pos_of(o),
    ensures
        m.reparent(o, parent).shape.parent_link(
            new_place(m.pos_of(o), m.count_of(o), insert_point(m, o, parent), q),
        ),
{
    let s = m.shape;
    let i = m.pos_of(o);
    let c = m.count_of(o);
    let n = m.len();
    let d = m.parents_of(o).len();
    let e = insert_point(m, o, parent);
    let s5 = m.reparent(o, parent).shape;
    lemma_reparent_layout(m, o, parent);
    lemma_reparent_links(m, o, parent);
    lemma_places_inverse(i, c, e, n);
    assert(s.objects[i] == o);
    assert(s.cnt(i) == c);
    let nq = new_place(i, c, e, q);
    let x = s.objects[q];
    assert(s5.objects[nq] == x);
    assert(s.parent_link(q));
    let ps = s.parents_of(x);
    let ps5 = s5.parents_of(x);
    let in_q = i <= q < i + c;
    assert forall|pp: int| #![trigger s5.encloses(pp, nq)] 0 <= pp < n && s5.encloses(pp, nq) implies {
        let op = old_place(i, c, e, pp);
        let in_p = i <= op < i + c;
        &&& new_place(i, c, e, op) == pp
        &&& (in_p == in_q ==> s.encloses(op, q))
        &&& (in_p != in_q ==> !in_p && gains(m, parent, op))
    } by {
        let op = old_place(i, c, e, pp);
        lemma_reparent_encloses(m, o, parent, op, q);
    }
        assert(x == o);
        assert(ps == m.parents_of(o));
        assert(ps.take(ps.len() - d) =~= Seq::<ObjectId>::empty());
        match parent {
            Some(pp) => {
                assert(ps5 =~= seq![pp] + m.parents_of(pp));
                let a = m.pos_of(pp);
                lemma_reparent_bounds(m, o, pp);
                assert(s.objects[a] == pp);
                let na = new_place(i, c, e, a);
                assert(s5.objects[na] == pp);
                lemma_reparent_encloses(m, o, parent, a, q);
                assert(gains(m, parent, a));
                assert(s5.encloses(na, nq));
                assert(s5.parents_of(pp) == s.parents_of(pp));
                assert(ps5.drop_first() =~= m.parents_of(pp));
                assert forall|p2: int| #![trigger s5.encloses(p2, nq)] na < p2 implies !s5.encloses(p2, nq) by {
                    if s5.encloses(p2, nq) {
                        let op = old_place(i, c, e, p2);
                        assert(gains(m, parent, op));
                        assert(op <= a);
                    }
                }
            },
            None => {
                assert(ps5.len() == 0);
                assert forall|p2: int| #![trigger s5.encloses(p2, nq)] !s5.encloses(p2, nq) by {
                    if s5.encloses(p2, nq) {
                        let op = old_place(i, c, e, p2);
                        assert(op >= i);
                    }
                }
            },
        }
}

/// The parent list of a descendant of the re-parented object is right again.
#[verifier::spinoff_prover]
#[verifier::rlimit(40)]
pub proof fn lemma_reparent_link_inside(m: HierarchyModel, o: ObjectId, parent: Option<ObjectId>, q: int)
    requires
        m.wf(),
        m.moves_apart(o, parent),
        0 <= q < m.len(),
        m.pos_of(o) < q < m.pos_of(o) + m.count_of(o),
    ensures
        m.reparent(o, parent).shape.parent_link(
            new_place(m.pos_of(o), m.count_of(o), insert_point(m, o, parent), q),
        ),
{
    let s = m.shape;
    let i = m.pos_of(o);
    let c = m.count_of(o);
    let n = m.len();
    let d = m.parents_of(o).len();
    let e = insert_point(m, o, parent);
    let s5 = m.reparent(o, parent).shape;
    lemma_reparent_layout(m, o, parent);
    lemma_reparent_links(m, o, parent);
    lemma_places_inverse(i, c, e, n);
    assert(s.objects[i] == o);
    assert(s.cnt(i) == c);
    let nq = new_place(i, c, e, q);
    let x = s.objects[q];
    assert(s5.objects[nq] == x);
    assert(s.parent_link(q));
    let ps = s.parents_of(x);
    let ps5 = s5.parents_of(x);
    let in_q = i <= q < i + c;
    assert forall|pp: int| #![trigger s5.encloses(pp, nq)] 0 <= pp < n && s5.encloses(pp, nq) implies {
        let op = old_place(i, c, e, pp);
        let in_p = i <= op < i + c;
        &&& new_place(i, c, e, op) == pp
        &&& (in_p == in_q ==> s.encloses(op, q))
        &&& (in_p != in_q ==> !in_p && gains(m, parent, op))
    } by {
        let op = old_place(i, c, e, pp);
        lemma_reparent_encloses(m, o, parent, op, q);
    }
        assert(s.encloses(i, q));
        lemma_parent_suffix(s, i, q);
        assert(s.parents_of(s.objects[i]) == m.parents_of(o));
        let a0 = s.pos_of(ps[0]);
        assert(s.objects[a0] == ps[0]);
        assert(i <= a0) by {
            if a0 < i {
                assert(s.encloses(i, q));
            }
        }
        let pa = s.parents_of(ps[0]);
        assert(ps.drop_first() == pa);
        if a0 > i {
            assert(s.encloses(i, a0));
            lemma_parent_suffix(s, i, a0);
        }
        let na = new_place(i, c, e, a0);
        assert(s5.objects[na] == ps[0]);
        lemma_reparent_encloses(m, o, parent, a0, q);
        assert(s5.encloses(na, nq));
        let t = ps.take(ps.len() - d);
        let ta = pa.take(pa.len() - d);
        assert(t.drop_first() =~= ta);
        match parent {
            Some(pp) => {
                assert(ps5 == t.push(pp) + m.parents_of(pp));
                assert(s5.parents_of(ps[0]) == ta.push(pp) + m.parents_of(pp));
                assert(ps5[0] == ps[0]);
                assert(ps5.drop_first() =~= ta.push(pp) + m.parents_of(pp));
            },
            None => {
                assert(ps5 == t);
                assert(s5.parents_of(ps[0]) == ta);
                assert(ps5[0] == ps[0]);
            },
        }
        assert forall|p2: int| #![trigger s5.encloses(p2, nq)] na < p2 implies !s5.encloses(p2, nq) by {
            if s5.encloses(p2, nq) {
                let op = old_place(i, c, e, p2);
                if i <= op < i + c {
                    assert(s.encloses(op, q));
                    assert(op <= a0);
                }
            }
        }
    }


/// Re-parenting keeps the hierarchy well-formed: after the block of `o` moves
/// under its new parent (or to the end, for no parent), places, spans and
/// parent lists agree again.
#[verifier::spinoff_prover]
#[verifier::rlimit(40)]
pub proof fn lemma_reparent_wf(m: HierarchyModel, o: ObjectId, parent: Option<ObjectId>)
    requires
        m.wf(),
        m.moves_apart(o, parent),
    ensures
        m.reparent(o, parent).wf(),
        m.reparent(o, parent).contains_object(o),
{
    let s = m.shape;
    let i = m.pos_of(o);
    let c = m.count_of(o);
    let n = m.len();
    let e = insert_point(m, o, parent);
    let m5 = m.reparent(o, parent);
    let s5 = m5.shape;
    lemma_reparent_layout(m, o, parent);
    lemma_reparent_links_facts(m, o, parent);
    lemma_places_inverse(i, c, e, n);
    assert(s.objects[i] == o);
    assert forall|p: int| 0 <= p < n implies s5.has_slot(#[trigger] s5.objects[p]) && s5.pos_of(
        s5.objects[p],
    ) == p by {
        let op = old_place(i, c, e, p);
        assert(s5.objects[new_place(i, c, e, op)] == s.objects[op]);
    }
    assert forall|p: int| 0 <= p < n implies 1 <= #[trigger] s5.cnt(p) && p + s5.cnt(p) <= n by {
        let op = old_place(i, c, e, p);
        lemma_reparent_spans_pair(m, o, parent, op, op);
    }
    assert forall|p: int, q: int| #![trigger s5.encloses(p, q)]
        q < n && s5.encloses(p, q) implies q + s5.cnt(q) <= p + s5.cnt(p) by {
        let op = old_place(i, c, e, p);
        let oq = old_place(i, c, e, q);
        lemma_reparent_spans_pair(m, o, parent, op, oq);
    }
    assert forall|q: int| 0 <= q < n implies #[trigger] s5.parent_link(q) by {
        let oq = old_place(i, c, e, q);
        if oq == i {
            lemma_reparent_link_root(m, o, parent, oq);
        } else if i < oq < i + c {
            lemma_reparent_link_inside(m, o, parent, oq);
        } else {
            lemma_reparent_link_outside(m, o, parent, oq);
        }
    }
    assert(s5.wf());
    // the ordered lists keep their lengths and the names stay interned
    let (s4, dest) = m.reparent_links(o, parent);
    assert(s4.names == m.names);
    assert(s4.interned == m.interned);
    assert forall|p: int| 0 <= p < m5.len() implies super::names::symbol_index(#[trigger] m5.names[p])
        < m5.interned.len() by {
        if dest < i {
            lemma_rotate_index(m.names, dest, i, i + c);
        } else if dest > i {
            lemma_rotate_index(m.names, i, i + c, dest);
        }
    }
    if dest < i {
        lemma_rotate_index(m.dirties, dest, i, i + c);
        lemma_rotate_index(m.current_frame_dirties, dest, i, i + c);
        lemma_rotate_index(m.actives, dest, i, i + c);
        lemma_rotate_index(m.active_selfs, dest, i, i + c);
        lemma_rotate_index(m.names, dest, i, i + c);
    } else if dest > i {
        lemma_rotate_index(m.dirties, i, i + c, dest);
        lemma_rotate_index(m.current_frame_dirties, i, i + c, dest);
        lemma_rotate_index(m.actives, i, i + c, dest);
        lemma_rotate_index(m.active_selfs, i, i + c, dest);
        lemma_rotate_index(m.names, i, i + c, dest);
    }
    assert(s5.objects[new_place(i, c, e, i)] == o);
}

} // verus!

verus! {

/// Flags and names do not shape a re-parenting.
pub proof fn lemma_reparent_shape_only(m: HierarchyModel, x: HierarchyModel, o: ObjectId, parent: Option<ObjectId>)
    requires
        m.shape == x.shape,
    ensures
        m.reparent(o, parent).shape == x.reparent(o, parent).shape,
{
    let (a4, ad) = m.reparent_links(o, parent);
    let (b4, bd) = x.reparent_links(o, parent);
    assert(a4.shape == b4.shape);
    assert(ad == bd);
}

/// After `set_parent(o, parent)` the object's parents are the new parent and
/// that parent's own parents (none, for no parent), the object keeps its
/// descendants, and its block ends where the new parent's span ends (at the
/// end of the lists, for no parent): it is the new parent's last child.
#[verifier::spinoff_prover]
#[verifier::rlimit(40)]
pub proof fn lemma_set_parent_effect(m: HierarchyModel, o: ObjectId, parent: Option<ObjectId>)
    requires
        m.wf(),
        m.can_reparent(o, parent),
    ensures
        m.set_parent(o, parent).len() == m.len(),
        m.set_parent(o, parent).count_of(o) == m.count_of(o),
        m.set_parent(o, parent).parents_of(o) == match parent {
            Some(p) => seq![p] + m.parents_of(p),
            None => Seq::<ObjectId>::empty(),
        },
        match parent {
            Some(p) => m.set_parent(o, parent).pos_of(o) + m.set_parent(o, parent).count_of(o)
                == m.set_parent(o, parent).pos_of(p) + m.set_parent(o, parent).count_of(p),
            None => m.set_parent(o, parent).pos_of(o) + m.set_parent(o, parent).count_of(o)
                == m.set_parent(o, parent).len(),
        },
{
    if !m.moves_apart(o, parent) {
        lemma_set_parent_up_effect(m, o, parent.unwrap());
        return;
    }
    let s = m.shape;
    let i = m.pos_of(o);
    let c = m.count_of(o);
    let n = m.len();
    let e = insert_point(m, o, parent);
    let d = m.parents_of(o).len();
    let (s4, dest) = m.reparent_links(o, parent);
    let s5 = m.reparent(o, parent).shape;
    lemma_reparent_layout(m, o, parent);
    lemma_reparent_links(m, o, parent);
    lemma_reparent_links_facts(m, o, parent);
    assert(s.objects[i] == o);
    assert(s.cnt(i) == c);
    let m1 = m.set_dirty(o);
    lemma_reparent_shape_only(m, m1, o, parent);
    let r = m.set_parent(o, parent);
    assert(r.shape == s5);
    lemma_places_inverse(i, c, e, n);
    // The object itself.
    assert(!s.encloses(i, i));
    assert(s5.spans[o.zero_based()] == s5.spans[s.objects[i].zero_based()]);
    assert(new_place(i, c, e, i) == e);
    assert(s4.shape.parents[s.objects[i].zero_based()] == s.parents_of(s.objects[i]).take(0int) + match parent {
        Some(p) => seq![p] + m.parents_of(p),
        None => Seq::<ObjectId>::empty(),
    }) by {
        let t = s.parents_of(s.objects[i]).take(s.parents_of(s.objects[i]).len() - d);
        assert(t =~= Seq::<ObjectId>::empty());
        match parent {
            Some(p) => {
                assert(t.push(p) + m.parents_of(p) =~= seq![p] + m.parents_of(p));
            },
            None => {},
        }
    }
    assert(s.parents_of(s.objects[i]).take(0int) =~= Seq::<ObjectId>::empty());
    match parent {
        Some(p) => {
            assert(seq![p] + m.parents_of(p) == Seq::<ObjectId>::empty() + (seq![p] + m.parents_of(p)));
            let a = m.pos_of(p);
            assert(s.objects[a] == p);
            lemma_has_id_parent(s, i, a);
            assert(!s.encloses(a, i));
            assert(gains(m, parent, a));
            assert(!(i <= a < i + c));
            assert(s5.spans[p.zero_based()] == s5.spans[s.objects[a].zero_based()]);
            assert(s.cnt(a) >= 1);
        },
        None => {
            assert(Seq::<ObjectId>::empty() + Seq::<ObjectId>::empty() =~= Seq::<ObjectId>::empty());
        },
    }
}

} // verus!
