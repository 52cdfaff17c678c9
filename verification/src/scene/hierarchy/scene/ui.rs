use super::super::object_id::ObjectId;
use super::super::storage::hierarchy_model::HierarchyModel;
use super::super::storage::hierarchy_storage::HierarchyStorage;
use vstd::prelude::*;

verus! {

/// Place `k` lies in the span of one of the objects (of those without a
/// parent, when `roots_only`).
pub open spec fn in_marked_span(m: HierarchyModel, ids: Seq<ObjectId>, roots_only: bool, k: int) -> bool {
    exists|j: int|
        0 <= j < ids.len() && (!roots_only || m.parents_of(ids[j]).len() == 0) && m.pos_of(#[trigger] ids[j]) <= k
            < m.pos_of(ids[j]) + m.count_of(ids[j])
}

/// The hierarchy after the spans of the objects (of those without a parent,
/// when `roots_only`) are made dirty.
pub open spec fn marked_dirty(m: HierarchyModel, ids: Seq<ObjectId>, roots_only: bool) -> HierarchyModel {
    HierarchyModel {
        dirties: Seq::new(m.dirties.len(), |k: int| m.dirties[k] || in_marked_span(m, ids, roots_only, k)),
        ..m
    }
}

#[verifier::spinoff_prover]
#[verifier::rlimit(30)]
fn mark_dirty(hierarchy: &mut HierarchyStorage, ids: &[ObjectId], roots_only: bool)
    requires
        old(hierarchy)@.wf(),
        forall|j: int| 0 <= j < ids@.len() ==> old(hierarchy)@.contains_object(#[trigger] ids@[j]),
    ensures
        final(hierarchy)@ == marked_dirty(old(hierarchy)@, ids@, roots_only),
        final(hierarchy)@.wf(),
{
    let ghost m = old(hierarchy)@;
    let mut i: usize = 0;
    proof {
        assert(hierarchy@.dirties =~= marked_dirty(m, ids@.take(0), roots_only).dirties);
        assert(hierarchy@ == marked_dirty(m, ids@.take(0), roots_only));
    }
    while i < ids.len()
        invariant
            0 <= i <= ids@.len(),
            m.wf(),
            forall|j: int| 0 <= j < ids@.len() ==> m.contains_object(#[trigger] ids@[j]),
            hierarchy@ == marked_dirty(m, ids@.take(i as int), roots_only),
            hierarchy@.wf(),
        decreases ids@.len() - i,
    {
        let id = ids[i];
        let ghost before = hierarchy@;
        proof {
            assert(m.contains_object(ids@[i as int]));
            assert(m.shape.objects[m.pos_of(id)] == id);
            assert(m.pos_of(id) + m.shape.cnt(m.pos_of(id)) <= m.len());
            assert(before.shape == m.shape);
        }
        let marked = !roots_only || hierarchy.parent(id).is_none();
        if marked {
            hierarchy.set_dirty(id);
        }
        proof {
            let t = ids@.take(i as int + 1);
            assert(t[i as int] == id);
            assert forall|k: int| 0 <= k < m.dirties.len() implies #[trigger] hierarchy@.dirties[k] == (m.dirties[k]
                || in_marked_span(m, t, roots_only, k)) by {
                if in_marked_span(m, ids@.take(i as int), roots_only, k) {
                    let j = choose|j: int|
                        0 <= j < i && (!roots_only || m.parents_of(ids@.take(i as int)[j]).len() == 0) && m.pos_of(
                            #[trigger] ids@.take(i as int)[j],
                        ) <= k < m.pos_of(ids@.take(i as int)[j]) + m.count_of(ids@.take(i as int)[j]);
                    assert(t[j] == ids@.take(i as int)[j]);
                }
                if in_marked_span(m, t, roots_only, k) {
                    let j = choose|j: int|
                        0 <= j < i + 1 && (!roots_only || m.parents_of(t[j]).len() == 0) && m.pos_of(#[trigger] t[j])
                            <= k < m.pos_of(t[j]) + m.count_of(t[j]);
                    if j < i {
                        assert(ids@.take(i as int)[j] == t[j]);
                    }
                }
            }
            assert(hierarchy@.dirties =~= marked_dirty(m, t, roots_only).dirties);
            assert(hierarchy@ == marked_dirty(m, t, roots_only));
        }
        i = i + 1;
    }
    proof {
        assert(ids@.take(ids@.len() as int) =~= ids@);
    }
}

/// Makes dirty the span of each UI scaler object that has no parent, so that
/// the UI under it is laid out again.
pub fn mark_root_ui_scaler_dirty(hierarchy: &mut HierarchyStorage, scaler_ids: &[ObjectId])
    requires
        old(hierarchy)@.wf(),
        forall|j: int| 0 <= j < scaler_ids@.len() ==> old(hierarchy)@.contains_object(#[trigger] scaler_ids@[j]),
    ensures
        final(hierarchy)@ == marked_dirty(old(hierarchy)@, scaler_ids@, true),
        final(hierarchy)@.wf(),
{
    mark_dirty(hierarchy, scaler_ids, true);
}

/// Makes dirty the span of each object whose UI scaler changed.
pub fn broadcast_ui_scaler_dirty(hierarchy: &mut HierarchyStorage, dirty_scaler_ids: &[ObjectId])
    requires
        old(hierarchy)@.wf(),
        forall|j: int|
            0 <= j < dirty_scaler_ids@.len() ==> old(hierarchy)@.contains_object(#[trigger] dirty_scaler_ids@[j]),
    ensures
        final(hierarchy)@ == marked_dirty(old(hierarchy)@, dirty_scaler_ids@, false),
        final(hierarchy)@.wf(),
{
    mark_dirty(hierarchy, dirty_scaler_ids, false);
}

/// The objects are in the order of their places, ancestors before their
/// descendants.
pub open spec fn in_place_order(m: HierarchyModel, ids: Seq<ObjectId>) -> bool {
    forall|a: int, b: int| 0 <= a <= b < ids.len() ==> m.pos_of(#[trigger] ids[a]) <= m.pos_of(#[trigger] ids[b])
}

/// The order in which the UI objects are laid out: the given objects (UI
/// scalers and UI elements; an object with both comes twice) by their places
/// in the hierarchy, so that each is laid out after its ancestors.
#[verifier::spinoff_prover]
#[verifier::rlimit(30)]
pub fn ui_update_order(hierarchy: &HierarchyStorage, ids: &[ObjectId]) -> (r: Vec<ObjectId>)
    requires
        forall|j: int| 0 <= j < ids@.len() ==> hierarchy@.has_slot(#[trigger] ids@[j]),
    ensures
        r@.to_multiset() == ids@.to_multiset(),
        in_place_order(hierarchy@, r@),
{
    let ghost m = hierarchy@;
    let mut out: Vec<ObjectId> = Vec::new();
    let mut keys: Vec<u32> = Vec::new();
    let mut i: usize = 0;
    proof {
        assert(out@ =~= ids@.take(0));
    }
    while i < ids.len()
        invariant
            0 <= i <= ids@.len(),
            m == hierarchy@,
            forall|j: int| 0 <= j < ids@.len() ==> m.has_slot(#[trigger] ids@[j]),
            out@.len() == keys@.len(),
            forall|t: int| 0 <= t < out@.len() ==> keys@[t] == m.pos_of(#[trigger] out@[t]),
            in_place_order(m, out@),
            out@.to_multiset() == ids@.take(i as int).to_multiset(),
        decreases ids@.len() - i,
    {
        let id = ids[i];
        let key = hierarchy.index(id);
        let mut p: usize = 0;
        while p < keys.len() && keys[p] <= key
            invariant
                0 <= p <= keys@.len(),
                out@.len() == keys@.len(),
                forall|t: int| 0 <= t < out@.len() ==> keys@[t] == m.pos_of(#[trigger] out@[t]),
                forall|t: int| 0 <= t < p ==> keys@[t] <= key,
            decreases keys@.len() - p,
        {
            p = p + 1;
        }
        let ghost before = out@;
        out.insert(p, id);
        keys.insert(p, key);
        proof {
            assert(ids@.take(i as int + 1) =~= ids@.take(i as int).push(id));
            assert(ids@.take(i as int).push(id) =~= ids@.take(i as int).insert(i as int, id));
            vstd::seq_lib::to_multiset_insert(before, p as int, id);
            vstd::seq_lib::to_multiset_insert(ids@.take(i as int), i as int, id);
            assert(out@ == before.insert(p as int, id));
            let o = out@;
            assert forall|t: int| 0 <= t < o.len() implies keys@[t] == m.pos_of(#[trigger] o[t]) by {
                if t < p {
                    assert(o[t] == before[t]);
                } else if t > p {
                    assert(o[t] == before[t - 1]);
                }
            }
            assert forall|a: int, b: int| 0 <= a <= b < o.len() implies m.pos_of(#[trigger] o[a]) <= m.pos_of(
                #[trigger] o[b],
            ) by {
                let ka = keys@[a];
                let kb = keys@[b];
                if a < p && b < p {
                    assert(o[a] == before[a] && o[b] == before[b]);
                } else if a < p && b == p {
                    assert(o[a] == before[a]);
                } else if a < p {
                    assert(o[a] == before[a] && o[b] == before[b - 1]);
                } else if a == p && b > p {
                    assert(o[b] == before[b - 1]);
                    if p < before.len() {
                        assert(m.pos_of(before[p as int]) <= m.pos_of(before[b - 1]));
                    }
                } else if a > p {
                    assert(o[a] == before[a - 1] && o[b] == before[b - 1]);
                }
            }
        }
        i = i + 1;
    }
    proof {
        assert(ids@.take(ids@.len() as int) =~= ids@);
    }
    out
}

} // verus!
