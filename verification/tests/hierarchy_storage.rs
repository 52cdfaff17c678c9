use lvl_core::scene::hierarchy::object_id::ObjectId;
use lvl_core::scene::hierarchy::scene::ui::{broadcast_ui_scaler_dirty, mark_root_ui_scaler_dirty, ui_update_order};
use lvl_core::scene::hierarchy::storage::active_transition::ActiveTransition;
use lvl_core::scene::hierarchy::storage::hierarchy_storage::HierarchyStorage;

fn obj_id(id: u32) -> ObjectId {
    ObjectId::new(id + 1)
}

fn create_hierarchy(object_count: u32) -> HierarchyStorage {
    let mut hierarchy = HierarchyStorage::new();

    for id in 0..object_count {
        hierarchy.add(obj_id(id));
    }

    hierarchy
}

#[test]
fn check_hierarchy_object_order() {
    let mut hierarchy = create_hierarchy(4);

    assert_eq!(
        hierarchy.objects(),
        &[obj_id(0), obj_id(1), obj_id(2), obj_id(3)]
    );

    hierarchy.set_parent(obj_id(2), Some(obj_id(0)));
    hierarchy.set_parent(obj_id(3), Some(obj_id(0)));

    assert_eq!(
        hierarchy.objects(),
        &[obj_id(0), obj_id(2), obj_id(3), obj_id(1),]
    );

    hierarchy.set_parent(obj_id(2), Some(obj_id(1)));
    hierarchy.set_parent(obj_id(3), Some(obj_id(1)));

    assert_eq!(
        hierarchy.objects(),
        &[obj_id(0), obj_id(1), obj_id(2), obj_id(3),]
    );

    hierarchy.set_parent(obj_id(0), Some(obj_id(1)));

    assert_eq!(
        hierarchy.objects(),
        &[obj_id(1), obj_id(2), obj_id(3), obj_id(0),]
    );
}

#[test]
fn check_hierarchy_object_dirty() {
    let mut hierarchy = create_hierarchy(1);

    assert_eq!(hierarchy.is_dirty(obj_id(0)), true);

    hierarchy.reset_dirties();

    assert_eq!(hierarchy.is_dirty(obj_id(0)), false);
}

#[test]
fn check_hierarchy_object_removal() {
    let mut hierarchy = create_hierarchy(6);

    hierarchy.remove(obj_id(1));
    hierarchy.remove(obj_id(4));

    assert_eq!(
        hierarchy.objects(),
        &[obj_id(0), obj_id(2), obj_id(3), obj_id(5),]
    );

    hierarchy.set_parent(obj_id(0), Some(obj_id(5)));
    hierarchy.remove(obj_id(5));

    assert_eq!(hierarchy.objects(), &[obj_id(2), obj_id(3),]);
}

#[test]
fn check_hierarchy_object_active_flag() {
    let mut hierarchy = create_hierarchy(10);

    hierarchy.set_parent(obj_id(1), Some(obj_id(0)));
    hierarchy.set_parent(obj_id(2), Some(obj_id(0)));
    hierarchy.set_parent(obj_id(3), Some(obj_id(0)));
    hierarchy.set_parent(obj_id(4), Some(obj_id(0)));
    hierarchy.set_parent(obj_id(5), Some(obj_id(1)));
    hierarchy.set_parent(obj_id(6), Some(obj_id(2)));
    hierarchy.set_parent(obj_id(7), Some(obj_id(3)));
    hierarchy.set_parent(obj_id(8), Some(obj_id(4)));

    hierarchy.set_active(obj_id(1), false);
    assert_eq!(hierarchy.is_active(obj_id(0)), true);
    assert_eq!(hierarchy.is_active(obj_id(1)), false);
    assert_eq!(hierarchy.is_active(obj_id(2)), true);
    assert_eq!(hierarchy.is_active(obj_id(3)), true);
    assert_eq!(hierarchy.is_active(obj_id(4)), true);
    assert_eq!(hierarchy.is_active(obj_id(5)), false);
    assert_eq!(hierarchy.is_active(obj_id(6)), true);
    assert_eq!(hierarchy.is_active(obj_id(7)), true);
    assert_eq!(hierarchy.is_active(obj_id(8)), true);
    assert_eq!(hierarchy.is_active(obj_id(9)), true);

    hierarchy.set_active(obj_id(0), false);
    assert_eq!(hierarchy.is_active(obj_id(0)), false);
    assert_eq!(hierarchy.is_active(obj_id(1)), false);
    assert_eq!(hierarchy.is_active(obj_id(2)), false);
    assert_eq!(hierarchy.is_active(obj_id(3)), false);
    assert_eq!(hierarchy.is_active(obj_id(4)), false);
    assert_eq!(hierarchy.is_active(obj_id(5)), false);
    assert_eq!(hierarchy.is_active(obj_id(6)), false);
    assert_eq!(hierarchy.is_active(obj_id(7)), false);
    assert_eq!(hierarchy.is_active(obj_id(8)), false);
    assert_eq!(hierarchy.is_active(obj_id(9)), true);

    hierarchy.set_active(obj_id(1), true);
    assert_eq!(hierarchy.is_active(obj_id(0)), false);
    assert_eq!(hierarchy.is_active(obj_id(1)), false);
    assert_eq!(hierarchy.is_active(obj_id(2)), false);
    assert_eq!(hierarchy.is_active(obj_id(3)), false);
    assert_eq!(hierarchy.is_active(obj_id(4)), false);
    assert_eq!(hierarchy.is_active(obj_id(5)), false);
    assert_eq!(hierarchy.is_active(obj_id(6)), false);
    assert_eq!(hierarchy.is_active(obj_id(7)), false);
    assert_eq!(hierarchy.is_active(obj_id(8)), false);
    assert_eq!(hierarchy.is_active(obj_id(9)), true);

    hierarchy.set_active(obj_id(0), true);
    assert_eq!(hierarchy.is_active(obj_id(0)), true);
    assert_eq!(hierarchy.is_active(obj_id(1)), true);
    assert_eq!(hierarchy.is_active(obj_id(2)), true);
    assert_eq!(hierarchy.is_active(obj_id(3)), true);
    assert_eq!(hierarchy.is_active(obj_id(4)), true);
    assert_eq!(hierarchy.is_active(obj_id(5)), true);
    assert_eq!(hierarchy.is_active(obj_id(6)), true);
    assert_eq!(hierarchy.is_active(obj_id(7)), true);
    assert_eq!(hierarchy.is_active(obj_id(8)), true);
    assert_eq!(hierarchy.is_active(obj_id(9)), true);
}

#[test]
fn check_hierarchy_object_active_flag_change_parent() {
    let mut hierarchy = create_hierarchy(4);

    hierarchy.set_active(obj_id(0), true);
    hierarchy.set_active(obj_id(1), false);

    hierarchy.set_parent(obj_id(2), Some(obj_id(0)));
    hierarchy.set_parent(obj_id(3), Some(obj_id(2)));

    assert_eq!(hierarchy.is_active(obj_id(0)), true);
    assert_eq!(hierarchy.is_active(obj_id(1)), false);
    assert_eq!(hierarchy.is_active(obj_id(2)), true);
    assert_eq!(hierarchy.is_active(obj_id(3)), true);

    hierarchy.set_parent(obj_id(2), Some(obj_id(1)));

    assert_eq!(hierarchy.is_active(obj_id(0)), true);
    assert_eq!(hierarchy.is_active(obj_id(1)), false);
    assert_eq!(hierarchy.is_active(obj_id(2)), false);
    assert_eq!(hierarchy.is_active(obj_id(3)), false);

    hierarchy.set_parent(obj_id(2), None);

    assert_eq!(hierarchy.is_active(obj_id(0)), true);
    assert_eq!(hierarchy.is_active(obj_id(1)), false);
    assert_eq!(hierarchy.is_active(obj_id(2)), true);
    assert_eq!(hierarchy.is_active(obj_id(3)), true);
}

#[test]
fn reparenting_roots_orders_blocks_after_their_parents() {
    let mut hierarchy = create_hierarchy(4);

    hierarchy.set_parent(obj_id(0), Some(obj_id(3)));
    hierarchy.set_parent(obj_id(1), Some(obj_id(2)));

    assert_eq!(
        hierarchy.objects(),
        &[obj_id(2), obj_id(1), obj_id(3), obj_id(0)]
    );
    assert_eq!(hierarchy.parent(obj_id(0)), Some(obj_id(3)));
    assert_eq!(hierarchy.parent(obj_id(1)), Some(obj_id(2)));
    assert_eq!(hierarchy.parent(obj_id(2)), None);
}

#[test]
fn set_parent_makes_the_object_the_last_child() {
    let mut hierarchy = create_hierarchy(5);

    hierarchy.set_parent(obj_id(1), Some(obj_id(0)));
    hierarchy.set_parent(obj_id(2), Some(obj_id(1)));
    hierarchy.set_parent(obj_id(3), Some(obj_id(0)));
    hierarchy.set_parent(obj_id(4), Some(obj_id(1)));

    assert_eq!(
        hierarchy.objects(),
        &[obj_id(0), obj_id(1), obj_id(2), obj_id(4), obj_id(3)]
    );
    assert_eq!(hierarchy.parents(obj_id(4)), &[obj_id(1), obj_id(0)]);
    assert_eq!(hierarchy.children(obj_id(1)), &[obj_id(2), obj_id(4)]);
    assert_eq!(
        hierarchy.object_and_children(obj_id(0)),
        &[obj_id(0), obj_id(1), obj_id(2), obj_id(4), obj_id(3)]
    );

    hierarchy.set_parent(obj_id(1), None);
    assert_eq!(
        hierarchy.objects(),
        &[obj_id(0), obj_id(3), obj_id(1), obj_id(2), obj_id(4)]
    );
    assert_eq!(hierarchy.parents(obj_id(2)), &[obj_id(1)]);
    assert_eq!(hierarchy.children(obj_id(0)), &[obj_id(3)]);
}

#[test]
fn dirty_flags_follow_set_dirty_and_frames() {
    let mut hierarchy = create_hierarchy(3);
    hierarchy.set_parent(obj_id(1), Some(obj_id(0)));
    hierarchy.reset_dirties();
    assert_eq!(hierarchy.is_dirty(obj_id(0)), false);
    assert_eq!(hierarchy.is_current_frame_dirty(obj_id(1)), true);

    hierarchy.copy_dirty_to_current_frame();
    assert_eq!(hierarchy.is_current_frame_dirty(obj_id(1)), false);

    hierarchy.set_dirty(obj_id(0));
    assert_eq!(hierarchy.is_dirty(obj_id(0)), true);
    assert_eq!(hierarchy.is_dirty(obj_id(1)), true);
    assert_eq!(hierarchy.is_dirty(obj_id(2)), false);
    assert_eq!(hierarchy.is_current_frame_dirty(obj_id(0)), false);

    hierarchy.copy_dirty_to_current_frame();
    assert_eq!(hierarchy.is_current_frame_dirty(obj_id(0)), true);
    assert_eq!(hierarchy.is_current_frame_dirty(obj_id(2)), false);
}

#[test]
fn removed_slots_are_reused() {
    let mut hierarchy = create_hierarchy(3);
    hierarchy.set_parent(obj_id(2), Some(obj_id(1)));
    hierarchy.remove(obj_id(1));
    assert_eq!(hierarchy.objects(), &[obj_id(0)]);

    hierarchy.add(obj_id(1));
    assert_eq!(hierarchy.objects(), &[obj_id(0), obj_id(1)]);
    assert_eq!(hierarchy.parent(obj_id(1)), None);
    assert_eq!(hierarchy.is_active(obj_id(1)), true);
    assert_eq!(hierarchy.index(obj_id(1)), 1);
}

#[test]
fn names_are_interned_per_slot() {
    let mut hierarchy = create_hierarchy(2);
    assert_eq!(hierarchy.name(obj_id(0)), "");

    hierarchy.set_name(obj_id(1), "camera");
    assert_eq!(hierarchy.name(obj_id(1)), "camera");
    assert_eq!(hierarchy.name(obj_id(0)), "");

    let symbol = hierarchy.intern_name("camera");
    assert_eq!(hierarchy.name_interned(obj_id(1)), symbol);
}

#[test]
fn sibling_walks_visit_the_direct_children() {
    let mut hierarchy = create_hierarchy(5);
    hierarchy.set_parent(obj_id(1), Some(obj_id(0)));
    hierarchy.set_parent(obj_id(2), Some(obj_id(1)));
    hierarchy.set_parent(obj_id(3), Some(obj_id(0)));
    hierarchy.set_parent(obj_id(4), Some(obj_id(0)));

    let mut children = Vec::new();
    let mut walk = hierarchy.direct_children_iter(obj_id(0)).unwrap();
    while let Some(id) = walk.next() {
        children.push(id);
    }
    assert_eq!(children, vec![obj_id(1), obj_id(3), obj_id(4)]);

    let mut siblings = Vec::new();
    let mut walk = hierarchy.sibling_iter(obj_id(3));
    while let Some(id) = walk.next() {
        siblings.push(id);
    }
    assert_eq!(siblings, vec![obj_id(1), obj_id(3), obj_id(4)]);

    assert!(hierarchy.direct_children_iter(obj_id(2)).is_none());

    let mut alone = Vec::new();
    let mut walk = hierarchy.sibling_iter(obj_id(0));
    while let Some(id) = walk.next() {
        alone.push(id);
    }
    assert_eq!(alone, vec![obj_id(0)]);
    assert_eq!(walk.next(), None);
    assert_eq!(walk.next(), None);
}

#[test]
fn set_active_reports_transitions_last_descendant_first() {
    let mut hierarchy = create_hierarchy(4);
    hierarchy.set_parent(obj_id(1), Some(obj_id(0)));
    hierarchy.set_parent(obj_id(2), Some(obj_id(0)));
    hierarchy.set_active(obj_id(2), false);

    let transitions = hierarchy.set_active_with_transitions(obj_id(0), false);
    assert_eq!(
        transitions,
        vec![
            ActiveTransition::TriggerOnInactive { object_id: obj_id(1) },
            ActiveTransition::TriggerOnInactive { object_id: obj_id(0) },
        ]
    );

    let transitions = hierarchy.set_active_with_transitions(obj_id(0), false);
    assert_eq!(transitions, vec![]);

    let transitions = hierarchy.set_active_with_transitions(obj_id(0), true);
    assert_eq!(
        transitions,
        vec![
            ActiveTransition::TriggerOnActive { object_id: obj_id(1) },
            ActiveTransition::TriggerOnActive { object_id: obj_id(0) },
        ]
    );
    assert_eq!(hierarchy.is_active(obj_id(2)), false);
    assert_eq!(hierarchy.is_active_self(obj_id(2)), false);
}

#[test]
fn ui_scalers_mark_their_spans_dirty() {
    let mut hierarchy = create_hierarchy(4);
    hierarchy.set_parent(obj_id(1), Some(obj_id(0)));
    hierarchy.reset_dirties();

    mark_root_ui_scaler_dirty(&mut hierarchy, &[obj_id(1), obj_id(2)]);
    assert_eq!(hierarchy.is_dirty(obj_id(0)), false);
    assert_eq!(hierarchy.is_dirty(obj_id(1)), false);
    assert_eq!(hierarchy.is_dirty(obj_id(2)), true);
    assert_eq!(hierarchy.is_dirty(obj_id(3)), false);

    broadcast_ui_scaler_dirty(&mut hierarchy, &[obj_id(0)]);
    assert_eq!(hierarchy.is_dirty(obj_id(0)), true);
    assert_eq!(hierarchy.is_dirty(obj_id(1)), true);
    assert_eq!(hierarchy.is_dirty(obj_id(3)), false);
}

#[test]
fn ui_objects_are_laid_out_in_hierarchy_order() {
    let mut hierarchy = create_hierarchy(4);
    hierarchy.set_parent(obj_id(0), Some(obj_id(3)));
    assert_eq!(
        ui_update_order(&hierarchy, &[obj_id(0), obj_id(3), obj_id(1), obj_id(0)]),
        vec![obj_id(1), obj_id(3), obj_id(0), obj_id(0)]
    );
    assert_eq!(ui_update_order(&hierarchy, &[]), vec![]);
}

#[test]
fn last_children_can_be_set_to_their_ancestors() {
    let mut hierarchy = create_hierarchy(5);
    hierarchy.set_parent(obj_id(1), Some(obj_id(0)));
    hierarchy.set_parent(obj_id(2), Some(obj_id(1)));
    hierarchy.set_parent(obj_id(3), Some(obj_id(1)));
    let order = [obj_id(0), obj_id(1), obj_id(2), obj_id(3), obj_id(4)];
    assert_eq!(hierarchy.objects(), &order);

    // the current parent of its last child
    hierarchy.set_parent(obj_id(3), Some(obj_id(1)));
    assert_eq!(hierarchy.objects(), &order);
    assert_eq!(hierarchy.parent(obj_id(3)), Some(obj_id(1)));
    assert_eq!(hierarchy.children(obj_id(1)), &[obj_id(2), obj_id(3)]);

    // the grandparent, whose span also ends with it
    hierarchy.set_parent(obj_id(3), Some(obj_id(0)));
    assert_eq!(hierarchy.objects(), &order);
    assert_eq!(hierarchy.parent(obj_id(3)), Some(obj_id(0)));
    assert_eq!(hierarchy.parents(obj_id(3)), &[obj_id(0)]);
    assert_eq!(hierarchy.children(obj_id(1)), &[obj_id(2)]);
    assert_eq!(hierarchy.object_and_children(obj_id(0)), &order[0..4]);
    let mut children = Vec::new();
    let mut walk = hierarchy.direct_children_iter(obj_id(0)).unwrap();
    while let Some(id) = walk.next() {
        children.push(id);
    }
    assert_eq!(children, vec![obj_id(1), obj_id(3)]);
}

#[test]
fn absent_objects_are_left_alone() {
    let mut hierarchy = create_hierarchy(3);
    hierarchy.set_parent(obj_id(1), Some(obj_id(0)));
    assert!(hierarchy.contains(obj_id(2)));
    assert!(!hierarchy.contains(obj_id(7)));

    assert_eq!(hierarchy.set_active_if_present(obj_id(7), false), vec![]);
    assert!(hierarchy.is_active(obj_id(0)));
    assert_eq!(
        hierarchy.set_active_if_present(obj_id(0), false),
        vec![
            ActiveTransition::TriggerOnInactive { object_id: obj_id(1) },
            ActiveTransition::TriggerOnInactive { object_id: obj_id(0) },
        ]
    );

    hierarchy.remove(obj_id(2));
    assert!(!hierarchy.contains(obj_id(2)));
    assert_eq!(hierarchy.set_active_if_present(obj_id(2), true), vec![]);
}
